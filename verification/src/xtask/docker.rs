//! The Docker build of the repository image and its runtime smoke checks.

use crate::xtask::image::docker_formats;
use crate::xtask::policy::image_tag;
use crate::xtask::{command_view, CommandSpec};
use vstd::prelude::*;

verus! {

/// Tag of the locally built image.
pub open spec fn docker_image_spec() -> Seq<char> {
    "protobuf-mdbook:local"@
}

/// The commands of the Docker task, in the order they run.
pub struct DockerRun {
    /// Builds the image from the repository root.
    pub build: CommandSpec,
    /// Runs the plugin's `--version` in the image.
    pub smoke: CommandSpec,
    /// Report the image's user, entry point, OS and architecture.
    pub inspect: Vec<CommandSpec>,
}

/// `docker image inspect --format FORMAT IMAGE`.
fn inspect_command(format: &str) -> (r: CommandSpec)
    ensures
        command_view(r) == (
            "docker"@,
            seq!["image"@, "inspect"@, "--format"@, format@, docker_image_spec()],
            None::<Seq<char>>,
        ),
{
    let c = CommandSpec::new("docker").arg("image").arg("inspect").arg("--format").arg(format).arg(
        image_tag(),
    );
    assert(command_view(c).1 =~= seq!["image"@, "inspect"@, "--format"@, format@, docker_image_spec()]);
    c
}

/// Build `linux/amd64` from `{root}/Dockerfile`, smoke-run `--version`, then inspect the
/// image's configuration.
pub fn docker(root: &str) -> (r: DockerRun)
    ensures
        command_view(r.build) == (
            "docker"@,
            seq![
                "build"@,
                "--platform"@,
                "linux/amd64"@,
                "-f"@,
                root@ + "/Dockerfile"@,
                "-t"@,
                docker_image_spec(),
                root@,
            ],
            None::<Seq<char>>,
        ),
        command_view(r.smoke) == (
            "docker"@,
            seq!["run"@, "--rm"@, "--entrypoint"@, "/protoc-gen-mdbook"@, docker_image_spec(), "--version"@],
            None::<Seq<char>>,
        ),
        r.inspect.len() == 4,
        forall|i: int|
            0 <= i < 4 ==> command_view(#[trigger] r.inspect[i]) == (
                "docker"@,
                seq!["image"@, "inspect"@, "--format"@, docker_formats()[i], docker_image_spec()],
                None::<Seq<char>>,
            ),
{
    let mut dockerfile = crate::text::to_string(root);
    dockerfile.append("/Dockerfile");
    let build = CommandSpec::new("docker").arg("build").arg("--platform").arg("linux/amd64").arg("-f").arg(
        dockerfile.as_str(),
    ).arg("-t").arg(image_tag()).arg(root);
    assert(command_view(build).1 =~= seq![
        "build"@,
        "--platform"@,
        "linux/amd64"@,
        "-f"@,
        root@ + "/Dockerfile"@,
        "-t"@,
        docker_image_spec(),
        root@,
    ]);
    let smoke = CommandSpec::new("docker").arg("run").arg("--rm").arg("--entrypoint").arg(
        "/protoc-gen-mdbook",
    ).arg(image_tag()).arg("--version");
    assert(command_view(smoke).1 =~= seq![
        "run"@,
        "--rm"@,
        "--entrypoint"@,
        "/protoc-gen-mdbook"@,
        docker_image_spec(),
        "--version"@,
    ]);
    let mut inspect: Vec<CommandSpec> = Vec::new();
    inspect.push(inspect_command("{{.Config.User}}"));
    inspect.push(inspect_command("{{json .Config.Entrypoint}}"));
    inspect.push(inspect_command("{{.Os}}"));
    inspect.push(inspect_command("{{.Architecture}}"));
    DockerRun { build, smoke, inspect }
}

} // verus!
