use protobuf_mdbook::xtask::book::{book_refresh, clear_before_init, mdbook_opt, GeneratorArg};
use protobuf_mdbook::xtask::check::{cargo_quality, fmt_check_command, select_steps};
use protobuf_mdbook::xtask::ci::{
    buf_cli_version_from_toolchain_pin, buf_lint, buf_version_matches, build_plugin, parse_toml_string_array,
    parse_toolchain_pin, release_bin, rustc_active_version, toolchain_status, trim_toml_string,
};
use protobuf_mdbook::xtask::docker::docker;
use protobuf_mdbook::xtask::image::{
    buildah_smoke_spec, check_platform, check_user, docker_build_spec, docker_cleanup_spec, docker_smoke_spec,
    plan, resolve_engine, run, smoke_check, temporary_name, ImageCheckError,
};
use protobuf_mdbook::xtask::policy::{check_order, image_auto_order, image_tag};
use protobuf_mdbook::xtask::vendor::{grammar_name, hex_string, read_meta, sha256_hex_bytes, upstream_check, UpstreamCheck};
use protobuf_mdbook::xtask::{CheckStep, FeatureArgs, ImageEngine};

#[test]
fn selection_is_deduplicated_and_canonical() {
    let selected =
        select_steps(&vec![CheckStep::Test, CheckStep::Fmt, CheckStep::Test], &vec![]).expect("selection should work");
    assert_eq!(selected, vec![CheckStep::Fmt, CheckStep::Test]);
}

#[test]
fn exclusion_preserves_registry_order() {
    let selected = select_steps(&vec![], &vec![CheckStep::Clippy, CheckStep::BookInit]).expect("selection");
    assert_eq!(
        selected,
        vec![
            CheckStep::Toolchain,
            CheckStep::BufLint,
            CheckStep::Fmt,
            CheckStep::Check,
            CheckStep::Test,
            CheckStep::BuildPlugin,
            CheckStep::HighlightRust,
            CheckStep::BookLinks,
        ]
    );
}

#[test]
fn excluding_every_step_is_an_error() {
    assert!(select_steps(&vec![], &check_order()).is_err());
}

#[test]
fn fmt_does_not_receive_feature_arguments() {
    let command = fmt_check_command();
    assert!(!command.args.contains(&"--all-features".into()));
}

#[test]
fn cargo_quality_forwards_explicit_features() {
    let features = FeatureArgs { all_features: false, features: vec!["alpha".into()], no_default_features: true };
    let command = cargo_quality("test", &features, false);
    assert!(command.args.contains(&"--no-default-features".into()));
    assert!(command.args.contains(&"alpha".into()));
    assert!(!command.args.contains(&"--all-features".into()));
}

#[test]
fn buf_cli_version_strips_prerelease_suffix() {
    assert_eq!(buf_cli_version_from_toolchain_pin("1.73.0-rc.1"), "1.73.0");
    assert_eq!(buf_cli_version_from_toolchain_pin("1.72.0-hotfix.2"), "1.72.0");
    assert_eq!(buf_cli_version_from_toolchain_pin("1.69.0"), "1.69.0");
}

#[test]
fn auto_order_has_both_concrete_engines_once() {
    let order = image_auto_order();
    assert_eq!(order.len(), 2);
    assert!(order.contains(&ImageEngine::Docker));
    assert!(order.contains(&ImageEngine::Buildah));
    assert_ne!(order[0], order[1]);
}

#[test]
fn docker_build_is_linux_amd64_scratch_plugin() {
    let p = plan("protobuf-mdbook:test".to_string());
    let spec = docker_build_spec(&p);
    assert!(spec.args.iter().any(|arg| arg == "--platform"));
    assert!(spec.args.iter().any(|arg| arg == "linux/amd64"));
    assert!(spec.args.iter().any(|arg| arg == "Dockerfile"));
    assert!(spec.args.iter().any(|arg| arg == "protobuf-mdbook:test"));
}

#[test]
fn docker_smoke_is_offline_and_cleans_up() {
    let p = plan(image_tag().to_string());
    let smoke = docker_smoke_spec(&p, "xtask-smoke-test");
    assert!(smoke.args.iter().any(|arg| arg == "--network"));
    assert!(smoke.args.iter().any(|arg| arg == "none"));
    assert!(smoke.args.iter().any(|arg| arg == "--rm"));
    assert!(smoke.args.iter().any(|arg| arg == "--version"));
    let cleanup = docker_cleanup_spec("xtask-smoke-test");
    assert!(cleanup.args.iter().any(|arg| arg == "--force"));
}

#[test]
fn buildah_smoke_runs_the_plugin_entrypoint() {
    let p = plan(image_tag().to_string());
    let smoke = buildah_smoke_spec(&p, "xtask-smoke-test");
    assert!(smoke.args.iter().any(|arg| arg == "--network"));
    assert!(smoke.args.iter().any(|arg| arg == "/protoc-gen-mdbook"));
    assert!(smoke.args.iter().any(|arg| arg == "--version"));
}

#[test]
fn temporary_container_name_is_scoped() {
    let name = temporary_name(42, 1700000000123);
    assert!(name.starts_with("xtask-smoke-"));
    assert_eq!(name, "xtask-smoke-42-1700000000123");
}

// Own scenarios.

#[test]
fn toml_values_are_unquoted() {
    assert_eq!(trim_toml_string("  \"1.85.0\" "), "1.85.0");
    assert_eq!(trim_toml_string("'stable'"), "stable");
    assert_eq!(parse_toml_string_array("[\"rustfmt\", \"clippy\", ]"), vec!["rustfmt", "clippy"]);
    assert!(parse_toml_string_array("[]").is_empty());
}

#[test]
fn toolchain_pin_reads_channel_and_components() {
    let pin = parse_toolchain_pin("[toolchain]\nchannel = \"1.85.0\"\ncomponents = [\"rustfmt\", \"clippy\"]\n")
        .unwrap_or_else(|m| panic!("{m}"));
    assert_eq!(pin.channel, "1.85.0");
    assert_eq!(pin.components, vec!["rustfmt", "clippy"]);
    let err = parse_toolchain_pin("[toolchain]\ncomponents = [\"rustfmt\"]\n").err().unwrap();
    assert_eq!(err, "rust-toolchain.toml missing channel");
}

#[test]
fn toolchain_status_reports_missing_components() {
    let pin = parse_toolchain_pin("channel = \"1.85.0\"\ncomponents = [\"rustfmt\", \"clippy\"]\n").ok().unwrap();
    let st = toolchain_status(&pin, "rustc 1.85.0 (4d91de4e4 2025-02-17)", "rustfmt-x86_64-unknown-linux-gnu\n");
    assert!(st.channel_matches);
    assert_eq!(st.missing, vec!["clippy"]);
    assert!(st.divergent());
    assert!(st.fails(true));
    assert!(!st.fails(false));
    assert_eq!(rustc_active_version("rustc 1.85.0 (4d91de4e4 2025-02-17)"), Some("1.85.0".to_string()));
    assert_eq!(rustc_active_version("rustc"), None);
}

#[test]
fn buf_tasks_probe_then_run_in_examples() {
    let cmds = buf_lint("/repo");
    assert_eq!(cmds[0].program, "buf");
    assert_eq!(cmds[0].args, vec!["--version"]);
    assert_eq!(cmds[1].args, vec!["lint"]);
    assert_eq!(cmds[1].cwd.as_deref(), Some("/repo/examples/proto"));
    assert!(buf_version_matches("1.69.0\n", "1.69.0-rc.1"));
    assert!(!buf_version_matches("1.68.2", "1.69.0"));
}

#[test]
fn build_plugin_and_release_bin_paths() {
    let c = build_plugin("/repo");
    assert_eq!(c.args, vec!["build", "--locked", "--release", "-p", "protobuf-mdbook"]);
    assert_eq!(c.cwd.as_deref(), Some("/repo"));
    assert_eq!(release_bin("/repo", "protoc-gen-mdbook"), "/repo/target/release/protoc-gen-mdbook");
}

#[test]
fn resolve_engine_takes_first_usable_in_auto_order() {
    let r = resolve_engine(ImageEngine::Auto, &vec![Err("no daemon".to_string()), Ok(())]);
    assert_eq!(r, Ok(ImageEngine::Buildah));
    let r = resolve_engine(ImageEngine::Auto, &vec![Err("a".to_string()), Err("b".to_string())]);
    assert_eq!(r, Err("no usable OCI engine in configured auto order:\n- a\n- b".to_string()));
    let r = resolve_engine(ImageEngine::Docker, &vec![Err("down".to_string())]);
    assert_eq!(r, Err("down".to_string()));
}

#[test]
fn image_run_for_buildah_creates_a_working_container() {
    let p = plan(image_tag().to_string());
    let r = run(ImageEngine::Buildah, &p, "c1");
    assert_eq!(r.build.program, "buildah");
    assert_eq!(r.inspect.len(), 4);
    let setup = r.setup.expect("from");
    assert_eq!(setup.args, vec!["from", "--name", "c1", "protobuf-mdbook:local"]);
    assert_eq!(r.cleanup.args, vec!["rm", "c1"]);
    let d = run(ImageEngine::Docker, &p, "c1");
    assert!(d.setup.is_none());
}

#[test]
fn image_checks_name_what_is_wrong() {
    assert!(check_user(" nobody\n").is_ok());
    assert!(matches!(check_user("root"), Err(ImageCheckError::User(u)) if u == "root"));
    assert!(check_platform("linux", "amd64\n").is_ok());
    assert!(matches!(check_platform("linux", "arm64"), Err(ImageCheckError::Platform(_, a)) if a == "arm64"));
    assert!(smoke_check("image", "protoc-gen-mdbook 0.1.0 (mdbook 0.5.4)").is_ok());
    assert_eq!(
        smoke_check("docker", "hello").unwrap_err(),
        "docker --version stdout missing plugin name: hello"
    );
}

#[test]
fn docker_task_builds_from_root() {
    let d = docker("/repo");
    assert_eq!(
        d.build.args,
        vec!["build", "--platform", "linux/amd64", "-f", "/repo/Dockerfile", "-t", "protobuf-mdbook:local", "/repo"]
    );
    assert_eq!(d.inspect.len(), 4);
}

#[test]
fn book_options_and_refresh() {
    assert_eq!(mdbook_opt("/repo", "entity", true, true, false), "init,layout=entity,summary");
    assert_eq!(
        book_refresh("/repo", "package", false, true),
        Ok("layout=package,book=/repo/api-book,mdbook_out=/repo/api-book".to_string())
    );
    assert_eq!(
        book_refresh("/repo", "package", false, false),
        Err("/repo/api-book is missing book.toml; run `cargo xtask book-init` first".to_string())
    );
    assert!(clear_before_init(true, "init,layout=package"));
    assert!(!clear_before_init(true, "layout=package"));
    assert_eq!(GeneratorArg::default(), GeneratorArg::Protoc);
}

#[test]
fn sha256_hex_of_known_inputs() {
    assert_eq!(
        sha256_hex_bytes(&b"abc".to_vec()),
        "ba7816bf8f01cfea414140de5dae2223b00361a396177a9cb410ff61f20015ad"
    );
    assert_eq!(hex_string(&vec![0x00, 0x0f, 0xa5]), "000fa5");
}

#[test]
fn vendor_meta_fields() {
    assert_eq!(grammar_name(&None, "protobuf.meta.json"), Some("protobuf".to_string()));
    assert_eq!(grammar_name(&Some("proto".to_string()), "protobuf.meta.json"), Some("proto".to_string()));
    assert_eq!(grammar_name(&None, "cel.json"), Some("cel".to_string()));
    assert_eq!(grammar_name(&None, ""), None);
    assert!(matches!(upstream_check(&None, &Some(String::new())), Ok(UpstreamCheck::Local)));
    assert!(upstream_check(&Some("https://x".to_string()), &None).is_err());
    assert!(matches!(
        upstream_check(&Some("https://x".to_string()), &Some("ab".to_string())),
        Ok(UpstreamCheck::Fetch { .. })
    ));
}

#[test]
fn meta_json_fields_are_read() {
    let bytes = br#"{"grammar":"protobuf","mdbook_pin":"0.5.4","vendored_file":"protobuf.min.js","vendored_sha256":"ab","upstream_sha256":7}"#.to_vec();
    let m = read_meta(&bytes).ok().expect("parses");
    assert_eq!(m.grammar.as_deref(), Some("protobuf"));
    assert_eq!(m.mdbook_pin.as_deref(), Some("0.5.4"));
    assert_eq!(m.vendored_file.as_deref(), Some("protobuf.min.js"));
    assert_eq!(m.vendored_sha256.as_deref(), Some("ab"));
    assert_eq!(m.upstream_file_url, None);
    assert_eq!(m.upstream_sha256, None);
    let err = read_meta(&b"{not json".to_vec()).err().expect("refused");
    assert!(err.starts_with("parse meta.json: "), "{err}");
}
