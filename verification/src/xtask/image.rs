//! Local OCI image builds with Docker and Buildah: the command lines, the choice of
//! engine, and the checks on what the engines report.

use crate::decimal::{dec, decimal, decimal_u128};
use crate::init::{mdbook_version, mdbook_version_spec};
use crate::text::{contains_sub, join_with, str_contains, to_string, trim, trim_str, views};
use crate::xtask::policy::{
    image_context, image_file, image_platform, image_smoke_args, image_smoke_program,
};
use crate::xtask::{command_view, with_args, CommandSpec, ImageEngine};
use vstd::prelude::*;

verus! {

/// How to reach the Docker daemon when its probe fails.
pub fn docker_guidance() -> (r: &'static str)
    ensures
        r@ == "Follow https://docs.docker.com/engine/install/ and verify the local daemon is reachable."@,
{
    "Follow https://docs.docker.com/engine/install/ and verify the local daemon is reachable."
}

/// How to set up Buildah when its probe fails.
pub fn buildah_guidance() -> (r: &'static str)
    ensures
        r@
            == "Follow https://github.com/containers/buildah/blob/main/install.md and verify its storage/runtime setup."@,
{
    "Follow https://github.com/containers/buildah/blob/main/install.md and verify its storage/runtime setup."
}

/// What an image build and its smoke run use.
pub struct ImagePlan {
    pub file: String,
    pub context: String,
    pub tag: String,
    pub platform: String,
    pub smoke_program: String,
    pub smoke_args: Vec<String>,
}

/// The repository's image settings with the tag `tag`.
pub fn plan(tag: String) -> (r: ImagePlan)
    ensures
        r.file@ == "Dockerfile"@,
        r.context@ == "."@,
        r.tag@ == tag@,
        r.platform@ == "linux/amd64"@,
        r.smoke_program@ == "/protoc-gen-mdbook"@,
        views(r.smoke_args@) == seq!["--version"@],
{
    ImagePlan {
        file: to_string(image_file()),
        context: to_string(image_context()),
        tag,
        platform: to_string(image_platform()),
        smoke_program: to_string(image_smoke_program()),
        smoke_args: image_smoke_args(),
    }
}

/// The command line of an image build: `PROGRAM SUB --platform P --tag T --file F CONTEXT`.
pub open spec fn build_view(program: Seq<char>, sub: Seq<char>, p: ImagePlan) -> (
    Seq<char>,
    Seq<Seq<char>>,
    Option<Seq<char>>,
) {
    (
        program,
        seq![sub, "--platform"@, p.platform@, "--tag"@, p.tag@, "--file"@, p.file@, p.context@],
        None,
    )
}

/// The Docker smoke run: offline, removed when it exits, the plugin as entry point.
pub open spec fn docker_smoke_view(p: ImagePlan, name: Seq<char>) -> (
    Seq<char>,
    Seq<Seq<char>>,
    Option<Seq<char>>,
) {
    (
        "docker"@,
        seq![
            "run"@,
            "--name"@,
            name,
            "--rm"@,
            "--network"@,
            "none"@,
            "--entrypoint"@,
            p.smoke_program@,
            p.tag@,
        ] + views(p.smoke_args@),
        None,
    )
}

/// The Buildah smoke run in working container `name`, offline.
pub open spec fn buildah_smoke_view(p: ImagePlan, name: Seq<char>) -> (
    Seq<char>,
    Seq<Seq<char>>,
    Option<Seq<char>>,
) {
    (
        "buildah"@,
        seq!["run"@, "--network"@, "none"@, name, "--"@, p.smoke_program@] + views(p.smoke_args@),
        None,
    )
}

/// `docker image inspect --format FORMAT TAG`.
pub open spec fn docker_inspect_view(p: ImagePlan, format: Seq<char>) -> (
    Seq<char>,
    Seq<Seq<char>>,
    Option<Seq<char>>,
) {
    ("docker"@, seq!["image"@, "inspect"@, "--format"@, format, p.tag@], None)
}

/// `buildah inspect --type image --format FORMAT TAG`.
pub open spec fn buildah_inspect_view(p: ImagePlan, format: Seq<char>) -> (
    Seq<char>,
    Seq<Seq<char>>,
    Option<Seq<char>>,
) {
    ("buildah"@, seq!["inspect"@, "--type"@, "image"@, "--format"@, format, p.tag@], None)
}

/// `buildah from --name NAME TAG`.
pub open spec fn buildah_from_view(p: ImagePlan, name: Seq<char>) -> (
    Seq<char>,
    Seq<Seq<char>>,
    Option<Seq<char>>,
) {
    ("buildah"@, seq!["from"@, "--name"@, name, p.tag@], None)
}

/// `c` with each of `more` appended.
fn with_strings(c: CommandSpec, more: &Vec<String>) -> (r: CommandSpec)
    ensures
        command_view(r) == (command_view(c).0, command_view(c).1 + views(more@), command_view(c).2),
{
    let mut r = c;
    let ghost base = command_view(c).1;
    let mut i: usize = 0;
    while i < more.len()
        invariant
            i <= more.len(),
            command_view(r) == (command_view(c).0, base + views(more@).take(i as int), command_view(c).2),
            base == command_view(c).1,
        decreases more.len() - i,
    {
        r = r.arg(more[i].as_str());
        i = i + 1;
        assert(base + views(more@).take(i as int) =~= (base + views(more@).take(i - 1)).push(
            views(more@)[i - 1],
        ));
    }
    assert(views(more@).take(more.len() as int) =~= views(more@));
    r
}

/// `docker build --platform P --tag T --file F CONTEXT`.
pub fn docker_build_spec(plan: &ImagePlan) -> (r: CommandSpec)
    ensures
        command_view(r) == build_view("docker"@, "build"@, *plan),
{
    let c = CommandSpec::new("docker").arg("build").arg("--platform").arg(plan.platform.as_str()).arg(
        "--tag",
    ).arg(plan.tag.as_str()).arg("--file").arg(plan.file.as_str()).arg(plan.context.as_str());
    assert(command_view(c).1 =~= seq![
        "build"@,
        "--platform"@,
        plan.platform@,
        "--tag"@,
        plan.tag@,
        "--file"@,
        plan.file@,
        plan.context@,
    ]);
    c
}

/// `docker run --name N --rm --network none --entrypoint PROGRAM TAG ARGS..`: offline,
/// removed when it exits.
pub fn docker_smoke_spec(plan: &ImagePlan, name: &str) -> (r: CommandSpec)
    ensures
        command_view(r) == docker_smoke_view(*plan, name@),
{
    let c = CommandSpec::new("docker").arg("run").arg("--name").arg(name).arg("--rm").arg(
        "--network",
    ).arg("none").arg("--entrypoint").arg(plan.smoke_program.as_str()).arg(plan.tag.as_str());
    assert(command_view(c).1 =~= seq![
        "run"@,
        "--name"@,
        name@,
        "--rm"@,
        "--network"@,
        "none"@,
        "--entrypoint"@,
        plan.smoke_program@,
        plan.tag@,
    ]);
    with_strings(c, &plan.smoke_args)
}

/// `docker image inspect --format FORMAT TAG`.
pub fn docker_inspect_spec(plan: &ImagePlan, format: &str) -> (r: CommandSpec)
    ensures
        command_view(r) == docker_inspect_view(*plan, format@),
{
    let c = CommandSpec::new("docker").arg("image").arg("inspect").arg("--format").arg(format).arg(
        plan.tag.as_str(),
    );
    assert(command_view(c).1 =~= seq!["image"@, "inspect"@, "--format"@, format@, plan.tag@]);
    c
}

/// `docker rm --force NAME`.
pub fn docker_cleanup_spec(name: &str) -> (r: CommandSpec)
    ensures
        command_view(r) == ("docker"@, seq!["rm"@, "--force"@, name@], None::<Seq<char>>),
{
    let c = CommandSpec::new("docker").arg("rm").arg("--force").arg(name);
    assert(command_view(c).1 =~= seq!["rm"@, "--force"@, name@]);
    c
}

/// `buildah bud --platform P --tag T --file F CONTEXT`.
pub fn buildah_build_spec(plan: &ImagePlan) -> (r: CommandSpec)
    ensures
        command_view(r) == build_view("buildah"@, "bud"@, *plan),
{
    let c = CommandSpec::new("buildah").arg("bud").arg("--platform").arg(plan.platform.as_str()).arg(
        "--tag",
    ).arg(plan.tag.as_str()).arg("--file").arg(plan.file.as_str()).arg(plan.context.as_str());
    assert(command_view(c).1 =~= seq![
        "bud"@,
        "--platform"@,
        plan.platform@,
        "--tag"@,
        plan.tag@,
        "--file"@,
        plan.file@,
        plan.context@,
    ]);
    c
}

/// `buildah from --name NAME TAG`.
pub fn buildah_from_spec(plan: &ImagePlan, name: &str) -> (r: CommandSpec)
    ensures
        command_view(r) == buildah_from_view(*plan, name@),
{
    let c = CommandSpec::new("buildah").arg("from").arg("--name").arg(name).arg(plan.tag.as_str());
    assert(command_view(c).1 =~= seq!["from"@, "--name"@, name@, plan.tag@]);
    c
}

/// `buildah run --network none NAME -- PROGRAM ARGS..`.
pub fn buildah_smoke_spec(plan: &ImagePlan, name: &str) -> (r: CommandSpec)
    ensures
        command_view(r) == buildah_smoke_view(*plan, name@),
{
    let c = CommandSpec::new("buildah").arg("run").arg("--network").arg("none").arg(name).arg("--").arg(
        plan.smoke_program.as_str(),
    );
    assert(command_view(c).1 =~= seq!["run"@, "--network"@, "none"@, name@, "--"@, plan.smoke_program@]);
    with_strings(c, &plan.smoke_args)
}

/// `buildah rm NAME`.
pub fn buildah_cleanup_spec(name: &str) -> (r: CommandSpec)
    ensures
        command_view(r) == ("buildah"@, seq!["rm"@, name@], None::<Seq<char>>),
{
    let c = CommandSpec::new("buildah").arg("rm").arg(name);
    assert(command_view(c).1 =~= seq!["rm"@, name@]);
    c
}

/// `buildah inspect --type image --format FORMAT TAG`.
pub fn buildah_inspect_spec(plan: &ImagePlan, format: &str) -> (r: CommandSpec)
    ensures
        command_view(r) == buildah_inspect_view(*plan, format@),
{
    let c = CommandSpec::new("buildah").arg("inspect").arg("--type").arg("image").arg("--format").arg(
        format,
    ).arg(plan.tag.as_str());
    assert(command_view(c).1 =~= seq!["inspect"@, "--type"@, "image"@, "--format"@, format@, plan.tag@]);
    c
}

/// Inspect formats for Docker: user, entry point, OS, architecture.
pub open spec fn docker_formats() -> Seq<Seq<char>> {
    seq!["{{.Config.User}}"@, "{{json .Config.Entrypoint}}"@, "{{.Os}}"@, "{{.Architecture}}"@]
}

/// Inspect formats for Buildah: user, entry point, OS, architecture.
pub open spec fn buildah_formats() -> Seq<Seq<char>> {
    seq![
        "{{.OCIv1.Config.User}}"@,
        "{{json .OCIv1.Config.Entrypoint}}"@,
        "{{.OCIv1.OS}}"@,
        "{{.OCIv1.Architecture}}"@,
    ]
}

/// The commands of one image build and smoke run, in the order they run.
pub struct ImageRun {
    /// Builds the image.
    pub build: CommandSpec,
    /// Report the image's user, entry point, OS and architecture.
    pub inspect: Vec<CommandSpec>,
    /// Creates the working container, where the engine needs one.
    pub setup: Option<CommandSpec>,
    /// Runs the plugin's `--version` inside the image.
    pub smoke: CommandSpec,
    /// Removes the container, whether or not the smoke run passed.
    pub cleanup: CommandSpec,
}

/// The commands that build the image with `engine`, check it, and smoke-run it in a
/// container called `name`.
pub fn run(engine: ImageEngine, plan: &ImagePlan, name: &str) -> (r: ImageRun)
    requires
        engine != ImageEngine::Auto,
    ensures
        r.inspect.len() == 4,
        engine == ImageEngine::Docker ==> {
            &&& command_view(r.build) == build_view("docker"@, "build"@, *plan)
            &&& forall|i: int| 0 <= i < 4 ==> command_view(#[trigger] r.inspect[i]) == docker_inspect_view(*plan, docker_formats()[i])
            &&& r.setup is None
            &&& command_view(r.smoke) == docker_smoke_view(*plan, name@)
            &&& command_view(r.cleanup) == ("docker"@, seq!["rm"@, "--force"@, name@], None::<Seq<char>>)
        },
        engine == ImageEngine::Buildah ==> {
            &&& command_view(r.build) == build_view("buildah"@, "bud"@, *plan)
            &&& forall|i: int| 0 <= i < 4 ==> command_view(#[trigger] r.inspect[i]) == buildah_inspect_view(*plan, buildah_formats()[i])
            &&& r.setup matches Some(s) && command_view(s) == buildah_from_view(*plan, name@)
            &&& command_view(r.smoke) == buildah_smoke_view(*plan, name@)
            &&& command_view(r.cleanup) == ("buildah"@, seq!["rm"@, name@], None::<Seq<char>>)
        },
{
    let mut inspect: Vec<CommandSpec> = Vec::new();
    match engine {
        ImageEngine::Docker => {
            inspect.push(docker_inspect_spec(plan, "{{.Config.User}}"));
            inspect.push(docker_inspect_spec(plan, "{{json .Config.Entrypoint}}"));
            inspect.push(docker_inspect_spec(plan, "{{.Os}}"));
            inspect.push(docker_inspect_spec(plan, "{{.Architecture}}"));
            ImageRun {
                build: docker_build_spec(plan),
                inspect,
                setup: None,
                smoke: docker_smoke_spec(plan, name),
                cleanup: docker_cleanup_spec(name),
            }
        },
        _ => {
            inspect.push(buildah_inspect_spec(plan, "{{.OCIv1.Config.User}}"));
            inspect.push(buildah_inspect_spec(plan, "{{json .OCIv1.Config.Entrypoint}}"));
            inspect.push(buildah_inspect_spec(plan, "{{.OCIv1.OS}}"));
            inspect.push(buildah_inspect_spec(plan, "{{.OCIv1.Architecture}}"));
            ImageRun {
                build: buildah_build_spec(plan),
                inspect,
                setup: Some(buildah_from_spec(plan, name)),
                smoke: buildah_smoke_spec(plan, name),
                cleanup: buildah_cleanup_spec(name),
            }
        },
    }
}

/// The command that tells whether `engine` is usable; `auto` is no engine.
pub fn engine_probe_spec(engine: ImageEngine) -> (r: Result<CommandSpec, String>)
    ensures
        engine == ImageEngine::Docker ==> (r matches Ok(c) && command_view(c) == (
            "docker"@,
            seq!["info"@, "--format"@, "{{.ServerVersion}}"@],
            None::<Seq<char>>,
        )),
        engine == ImageEngine::Buildah ==> (r matches Ok(c) && command_view(c) == (
            "buildah"@,
            seq!["info"@],
            None::<Seq<char>>,
        )),
        engine == ImageEngine::Auto ==> (r matches Err(m) && m@ == "auto is not an executable engine"@),
{
    match engine {
        ImageEngine::Docker => {
            let c = CommandSpec::new("docker").arg("info").arg("--format").arg("{{.ServerVersion}}");
            assert(command_view(c).1 =~= seq!["info"@, "--format"@, "{{.ServerVersion}}"@]);
            Ok(c)
        },
        ImageEngine::Buildah => {
            let c = CommandSpec::new("buildah").arg("info");
            assert(command_view(c).1 =~= seq!["info"@]);
            Ok(c)
        },
        ImageEngine::Auto => Err(to_string("auto is not an executable engine")),
    }
}

/// Probe outcomes as plain values: `None` for a usable engine, else the failure.
pub open spec fn probe_view(results: Seq<Result<(), String>>) -> Seq<Option<Seq<char>>> {
    results.map_values(
        |r: Result<(), String>|
            match r {
                Ok(_) => None,
                Err(e) => Some(e@),
            },
    )
}

/// Index of the first usable engine among the probe outcomes.
pub open spec fn first_usable(ps: Seq<Option<Seq<char>>>) -> Option<int>
    decreases ps.len(),
{
    if ps.len() == 0 {
        None
    } else {
        match first_usable(ps.drop_last()) {
            Some(i) => Some(i),
            None => if ps.last() is None {
                Some(ps.len() - 1)
            } else {
                None
            },
        }
    }
}

/// The failures of the probes, in order.
pub open spec fn failure_texts(ps: Seq<Option<Seq<char>>>) -> Seq<Seq<char>> {
    ps.filter(|p: Option<Seq<char>>| p is Some).map_values(|p: Option<Seq<char>>| p->0)
}

/// Error text when no engine of the auto order is usable.
pub open spec fn no_engine_message(ps: Seq<Option<Seq<char>>>) -> Seq<char> {
    "no usable OCI engine in configured auto order:\n- "@ + join_with(failure_texts(ps), "\n- "@)
}

proof fn lemma_first_usable_push(ps: Seq<Option<Seq<char>>>, p: Option<Seq<char>>)
    ensures
        first_usable(ps.push(p)) == (match first_usable(ps) {
            Some(i) => Some(i),
            None => if p is None {
                Some(ps.len() as int)
            } else {
                None
            },
        }),
{
    assert(ps.push(p).drop_last() =~= ps);
}

/// The engine to use, from the probe outcomes: an explicit engine is used when its
/// probe passed; `auto` takes the first usable engine of the auto order, probed in
/// that order.
pub fn resolve_engine(requested: ImageEngine, results: &Vec<Result<(), String>>) -> (r: Result<ImageEngine, String>)
    requires
        requested != ImageEngine::Auto ==> results.len() == 1,
        requested == ImageEngine::Auto ==> results.len() <= 2,
    ensures
        requested != ImageEngine::Auto ==> (match results[0] {
            Ok(_) => r == Ok::<ImageEngine, String>(requested),
            Err(e) => r matches Err(m) && m@ == e@,
        }),
        requested == ImageEngine::Auto ==> (match first_usable(probe_view(results@)) {
            Some(i) => r == Ok::<ImageEngine, String>(crate::xtask::policy::image_auto_order_spec()[i]),
            None => r matches Err(m) && m@ == no_engine_message(probe_view(results@)),
        }),
{
    if requested != ImageEngine::Auto {
        return match &results[0] {
            Ok(_) => Ok(requested),
            Err(e) => Err(e.clone()),
        };
    }
    let order = crate::xtask::policy::image_auto_order();
    let ghost pv = probe_view(results@);
    let mut failures: Vec<String> = Vec::new();
    let ghost is_fail = |p: Option<Seq<char>>| p is Some;
    let mut i: usize = 0;
    while i < results.len()
        invariant
            i <= results.len() <= 2,
            requested == ImageEngine::Auto,
            order@ == crate::xtask::policy::image_auto_order_spec(),
            pv == probe_view(results@),
            is_fail == (|p: Option<Seq<char>>| p is Some),
            first_usable(pv.take(i as int)) is None,
            views(failures@) == pv.take(i as int).filter(is_fail).map_values(|p: Option<Seq<char>>| p->0),
        decreases results.len() - i,
    {
        proof {
            lemma_first_usable_push(pv.take(i as int), pv[i as int]);
            assert(pv.take(i as int).push(pv[i as int]) =~= pv.take(i + 1));
        }
        match &results[i] {
            Ok(_) => {
                proof {
                    assert(pv[i as int] is None);
                    lemma_first_usable_prefix(pv, i as int);
                }
                return Ok(order[i]);
            },
            Err(e) => {
                let ghost before = views(failures@);
                proof {
                    assert(pv[i as int] == Some(e@));
                    assert(pv.take(i + 1).drop_last() =~= pv.take(i as int));
                    reveal(Seq::filter);
                    assert(pv.take(i + 1).filter(is_fail) =~= pv.take(i as int).filter(is_fail).push(Some(e@)));
                }
                failures.push(e.clone());
                assert(views(failures@) =~= before.push(e@));
                assert(views(failures@) =~= pv.take(i + 1).filter(is_fail).map_values(|p: Option<Seq<char>>| p->0));
            },
        }
        i = i + 1;
    }
    assert(pv.take(results.len() as int) =~= pv);
    let mut msg = to_string("no usable OCI engine in configured auto order:\n- ");
    let joined = crate::text::join_strings(&failures, "\n- ");
    msg.append(joined.as_str());
    Err(msg)
}

proof fn lemma_first_usable_prefix(ps: Seq<Option<Seq<char>>>, i: int)
    requires
        0 <= i < ps.len(),
        first_usable(ps.take(i)) is None,
        ps[i] is None,
    ensures
        first_usable(ps) == Some(i),
    decreases ps.len(),
{
    if ps.len() - 1 == i {
        assert(ps.drop_last() =~= ps.take(i));
    } else {
        assert(ps.drop_last().take(i) =~= ps.take(i));
        lemma_first_usable_prefix(ps.drop_last(), i);
    }
}

/// Why an image failed its configuration check.
pub enum ImageCheckError {
    /// The image does not run as `nobody`; the user it runs as.
    User(String),
    /// The entry point does not name the plugin; the entry point.
    Entrypoint(String),
    /// The image is not `linux/amd64`; its OS and architecture.
    Platform(String, String),
}

/// The image runs as `nobody` (the inspect output, trimmed).
pub fn check_user(user: &str) -> (r: Result<(), ImageCheckError>)
    ensures
        trim(user@) == "nobody"@ ==> r is Ok,
        trim(user@) != "nobody"@ ==> (r matches Err(ImageCheckError::User(u)) && u@ == trim(user@)),
{
    let u = trim_str(user);
    if crate::text::str_eq(u.as_str(), "nobody") {
        Ok(())
    } else {
        Err(ImageCheckError::User(u))
    }
}

/// The image's entry point names the plugin (the inspect output, trimmed).
pub fn check_entrypoint(entrypoint: &str) -> (r: Result<(), ImageCheckError>)
    ensures
        contains_sub(trim(entrypoint@), "protoc-gen-mdbook"@) ==> r is Ok,
        !contains_sub(trim(entrypoint@), "protoc-gen-mdbook"@) ==> (r matches Err(ImageCheckError::Entrypoint(e))
            && e@ == trim(entrypoint@)),
{
    let e = trim_str(entrypoint);
    if str_contains(e.as_str(), "protoc-gen-mdbook") {
        Ok(())
    } else {
        Err(ImageCheckError::Entrypoint(e))
    }
}

/// The image is built for `linux/amd64` (the inspect outputs, trimmed).
pub fn check_platform(os: &str, arch: &str) -> (r: Result<(), ImageCheckError>)
    ensures
        (trim(os@) == "linux"@ && trim(arch@) == "amd64"@) ==> r is Ok,
        !(trim(os@) == "linux"@ && trim(arch@) == "amd64"@) ==> (r matches Err(
            ImageCheckError::Platform(o, a),
        ) && o@ == trim(os@) && a@ == trim(arch@)),
{
    let o = trim_str(os);
    let a = trim_str(arch);
    if crate::text::str_eq(o.as_str(), "linux") && crate::text::str_eq(a.as_str(), "amd64") {
        Ok(())
    } else {
        Err(ImageCheckError::Platform(o, a))
    }
}

/// Error text of a smoke run whose output lacks the plugin name or the mdBook pin.
pub open spec fn smoke_spec(label: Seq<char>, stdout: Seq<char>) -> Option<Seq<char>> {
    if !contains_sub(stdout, "protoc-gen-mdbook"@) {
        Some(label + " --version stdout missing plugin name: "@ + stdout)
    } else if !contains_sub(stdout, mdbook_version_spec()) {
        Some(label + " --version stdout missing mdbook pin "@ + mdbook_version_spec() + ": "@ + stdout)
    } else {
        None
    }
}

/// The `--version` output of the image names the plugin and the mdBook version this
/// library is built with; `label` names the engine in the error.
pub fn smoke_check(label: &str, stdout: &str) -> (r: Result<(), String>)
    ensures
        match smoke_spec(label@, stdout@) {
            None => r is Ok,
            Some(m) => r matches Err(e) && e@ == m,
        },
{
    let pin = mdbook_version();
    if !str_contains(stdout, "protoc-gen-mdbook") {
        let mut m = to_string(label);
        m.append(" --version stdout missing plugin name: ");
        m.append(stdout);
        Err(m)
    } else if !str_contains(stdout, pin) {
        let mut m = to_string(label);
        m.append(" --version stdout missing mdbook pin ");
        m.append(pin);
        m.append(": ");
        m.append(stdout);
        Err(m)
    } else {
        Ok(())
    }
}

/// Name of the throwaway smoke container: `xtask-smoke-{pid}-{millis}`.
pub fn temporary_name(pid: u32, millis: u128) -> (r: String)
    ensures
        r@ == "xtask-smoke-"@ + dec(pid as nat) + "-"@ + dec(millis as nat),
{
    let mut r = to_string("xtask-smoke-");
    r.append(decimal(pid as u64).as_str());
    r.append("-");
    r.append(decimal_u128(millis).as_str());
    r
}

} // verus!
