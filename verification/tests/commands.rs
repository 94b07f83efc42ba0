use cargo_lambda::deploy::{
    Deploy, DeployError, DryOutput, OutputFormat as DeployOutputFormat, path_file_name,
    path_parent_dir,
};
use cargo_lambda::package::{
    ArchivePlan, BinaryArchive, Build, BuildError, OutputFormat, TARGET_ARM,
    TARGET_X86_64, archive_entry_name, binary_archive_info, find_binary_archive_plan, hex_upper,
    join_path, output_location, select_profile, select_target, split_spaces,
};
use cargo_lambda::template::{
    DEFAULT_EXTENSION_TEMPLATE_URL, DEFAULT_FUNCTION_TEMPLATE_URL, New, PromptValue, RenderAction,
    TemplateConfig, TemplatePrompt, Validation, replace_all_str, suggest_choice, validate_choice,
    validate_name,
};
use cargo_lambda::tls::TlsOptions;

fn base_new() -> New {
    New {
        template: None,
        extension: false,
        open: false,
        bin_name: None,
        no_interactive: true,
        render_file: None,
        render_var: None,
        ignore_file: None,
        package_name: "demo".to_string(),
    }
}

fn base_deploy() -> Deploy {
    Deploy {
        lambda_dir: None,
        manifest_path: "Cargo.toml".to_string(),
        binary_name: None,
        binary_path: None,
        s3_bucket: None,
        extension: false,
        internal: false,
        compatible_runtimes: vec!["provided.al2".to_string(), "provided.al2023".to_string()],
        output_format: DeployOutputFormat::Text,
        tag: None,
        tags: None,
        extra_files: None,
        dry: false,
        name: None,
        runtime: "provided.al2023".to_string(),
        enable_function_url: false,
        disable_function_url: false,
    }
}

// A 64-byte ELF header for an x86-64 executable, with no sections and no
// program headers: just enough for the object reader.
fn minimal_elf_x86_64() -> Vec<u8> {
    let mut elf = vec![0x7F, b'E', b'L', b'F', 2, 1, 1, 0, 0, 0, 0, 0, 0, 0, 0, 0];
    elf.extend_from_slice(&2u16.to_le_bytes());
    elf.extend_from_slice(&62u16.to_le_bytes());
    elf.extend_from_slice(&1u32.to_le_bytes());
    elf.extend_from_slice(&0u64.to_le_bytes());
    elf.extend_from_slice(&0u64.to_le_bytes());
    elf.extend_from_slice(&0u64.to_le_bytes());
    elf.extend_from_slice(&0u32.to_le_bytes());
    elf.extend_from_slice(&64u16.to_le_bytes());
    elf.extend_from_slice(&56u16.to_le_bytes());
    elf.extend_from_slice(&0u16.to_le_bytes());
    elf.extend_from_slice(&64u16.to_le_bytes());
    elf.extend_from_slice(&0u16.to_le_bytes());
    elf.extend_from_slice(&0u16.to_le_bytes());
    elf
}

#[test]
fn test_validate_choice() {
    let choices = vec!["a".to_string(), "b".to_string()];
    assert!(matches!(validate_choice("a", &choices), Validation::Valid));
    assert!(matches!(validate_choice("b", &choices), Validation::Valid));
    match validate_choice("c", &choices) {
        Validation::Invalid(m) => assert_eq!(m, "invalid choice: c"),
        Validation::Valid => panic!("c is no valid choice"),
    }
}

#[test]
fn test_suggest_choice() {
    let choices = vec!["a".to_string(), "b".to_string()];
    assert_eq!(suggest_choice("a", &choices), vec!["a".to_string()]);
    assert_eq!(suggest_choice("b", &choices), vec!["b".to_string()]);
    assert_eq!(suggest_choice("", &choices), vec!["a".to_string(), "b".to_string()]);
    assert!(suggest_choice("c", &choices).is_empty());
}

#[test]
fn test_ask_template_options() {
    let config = TemplateConfig {
        disable_default_prompts: true,
        prompts: vec![
            TemplatePrompt {
                name: "project_description".to_string(),
                message: "What is the description of your project?".to_string(),
                choices: None,
                default: Some(PromptValue::Text("My Lambda".to_string())),
            },
            TemplatePrompt {
                name: "enable_tracing".to_string(),
                message: "Would you like to enable tracing?".to_string(),
                choices: None,
                default: Some(PromptValue::Boolean(false)),
            },
            TemplatePrompt {
                name: "runtime".to_string(),
                message: "Which runtime would you like to use?".to_string(),
                choices: Some(vec!["provided.al2023".to_string(), "provided.al2".to_string()]),
                default: Some(PromptValue::Text("provided.al2023".to_string())),
            },
            TemplatePrompt {
                name: "architecture".to_string(),
                message: "arch".to_string(),
                choices: None,
                default: Some(PromptValue::Text("x86_64".to_string())),
            },
            TemplatePrompt {
                name: "memory".to_string(),
                message: "memory".to_string(),
                choices: None,
                default: Some(PromptValue::Text("128".to_string())),
            },
            TemplatePrompt {
                name: "timeout".to_string(),
                message: "timeout".to_string(),
                choices: None,
                default: Some(PromptValue::Text("3".to_string())),
            },
        ],
        render_files: vec![],
        render_all_files: false,
        ignore_files: vec![],
    };
    let variables = config.ask_template_options();
    let text = |k: &str| match variables.get(&k.to_string()) {
        Some(PromptValue::Text(s)) => s.clone(),
        other => panic!("expected text for {k}, got {other:?}"),
    };
    assert_eq!(text("project_description"), "My Lambda");
    assert!(matches!(
        variables.get(&"enable_tracing".to_string()),
        Some(PromptValue::Boolean(false))
    ));
    assert_eq!(text("runtime"), "provided.al2023");
    assert_eq!(text("architecture"), "x86_64");
    assert_eq!(text("memory"), "128");
    assert_eq!(text("timeout"), "3");
}

#[test]
fn prompt_without_default_yields_empty_text() {
    let config = TemplateConfig {
        disable_default_prompts: false,
        prompts: vec![TemplatePrompt {
            name: "free".to_string(),
            message: "say something".to_string(),
            choices: None,
            default: None,
        }],
        render_files: vec![],
        render_all_files: false,
        ignore_files: vec![],
    };
    let variables = config.ask_template_options();
    match variables.get(&"free".to_string()) {
        Some(PromptValue::Text(s)) => assert_eq!(s, ""),
        other => panic!("expected empty text, got {other:?}"),
    }
}

#[test]
fn package_names_are_validated() {
    assert!(validate_name("my-function").is_ok());
    assert!(validate_name("Ab9_x").is_ok());
    assert!(validate_name("a").is_err());
    assert!(validate_name("9lives").is_err());
    assert!(validate_name("bad name").is_err());
    assert!(validate_name("").is_err());
}

#[test]
fn template_option_falls_back_to_the_default_urls() {
    let mut o = base_new();
    assert_eq!(o.template_option(), DEFAULT_FUNCTION_TEMPLATE_URL);
    o.extension = true;
    assert_eq!(o.template_option(), DEFAULT_EXTENSION_TEMPLATE_URL);
    o.template = Some("my-template.zip".to_string());
    assert_eq!(o.template_option(), "my-template.zip");
}

#[test]
fn render_decision_classifies_template_entries() {
    let mut o = base_new();
    o.render_file = Some(vec!["docs/extra.md".to_string()]);
    o.ignore_file = Some(vec!["notes.txt".to_string()]);
    let d = |is_dir: bool, entry: &str, parent: Option<&str>, rel: &str| {
        let parent_owned = parent.map(|p| p.to_string());
        o.render_decision(is_dir, &entry.to_string(), parent_owned.as_ref(), &rel.to_string())
    };
    assert_eq!(d(true, "src", None, "src"), RenderAction::CreateDir);
    assert_eq!(d(true, ".git", None, ".git"), RenderAction::Skip);
    assert_eq!(d(false, "cargo-lambda-template.zip", None, "cargo-lambda-template.zip"), RenderAction::Skip);
    assert_eq!(d(false, "LICENSE", None, "LICENSE"), RenderAction::Skip);
    assert_eq!(d(false, "notes.txt", None, "notes.txt"), RenderAction::Skip);
    assert_eq!(d(false, "Cargo.toml", None, "Cargo.toml"), RenderAction::Render);
    assert_eq!(d(false, "README.md", None, "README.md"), RenderAction::Render);
    assert_eq!(d(false, "main.rs", Some("src"), "src/main.rs"), RenderAction::Render);
    assert_eq!(d(false, "main.rs", Some("tools"), "tools/main.rs"), RenderAction::CopyFile);
    assert_eq!(d(false, "lib.rs", Some("src"), "src/lib.rs"), RenderAction::Render);
    assert_eq!(d(false, "worker.rs", Some("bin"), "src/bin/worker.rs"), RenderAction::Render);
    assert_eq!(d(false, "extra.md", Some("docs"), "docs/extra.md"), RenderAction::Render);
    assert_eq!(d(false, "data.bin", None, "data.bin"), RenderAction::CopyFile);
}

#[test]
fn render_variables_split_on_the_first_equals_sign() {
    let mut o = base_new();
    o.render_var = Some(vec![
        "KEY=VALUE".to_string(),
        "nokey".to_string(),
        "A=1=2".to_string(),
        "KEY=OVERRIDDEN".to_string(),
    ]);
    let vars = o.render_variables();
    assert_eq!(vars.get(&"KEY".to_string()), Some(&"OVERRIDDEN".to_string()));
    assert_eq!(vars.get(&"A".to_string()), Some(&"1=2".to_string()));
    assert_eq!(vars.get(&"nokey".to_string()), None);
}

#[test]
fn space_splitting_keeps_empty_segments() {
    assert_eq!(split_spaces("zigbuild --release"), vec!["zigbuild", "--release"]);
    assert_eq!(split_spaces("a  b"), vec!["a", "", "b"]);
    assert_eq!(split_spaces(""), vec![""]);
    assert_eq!(split_spaces("one"), vec!["one"]);
}

#[test]
fn variable_substitution_replaces_every_occurrence() {
    assert_eq!(
        replace_all_str("name: {{ project_name }} ({{ project_name }})", "{{ project_name }}", "demo"),
        "name: demo (demo)"
    );
    assert_eq!(replace_all_str("aaa", "aa", "b"), "ba");
    assert_eq!(replace_all_str("untouched", "{{ x }}", "y"), "untouched");
    assert_eq!(replace_all_str("", "{{ x }}", "y"), "");
}

#[test]
fn profiles_map_to_their_directories() {
    assert_eq!(select_profile(&Some("dev".to_string()), false), "debug");
    assert_eq!(select_profile(&Some("test".to_string()), false), "debug");
    assert_eq!(select_profile(&Some("release".to_string()), false), "release");
    assert_eq!(select_profile(&Some("bench".to_string()), false), "release");
    assert_eq!(select_profile(&Some("fastbuild".to_string()), false), "fastbuild");
    assert_eq!(select_profile(&None, true), "release");
    assert_eq!(select_profile(&None, false), "debug");
}

#[test]
fn target_selection_prefers_flag_then_explicit_then_host() {
    let none: Vec<String> = vec![];
    let host = "aarch64-apple-darwin".to_string();
    assert_eq!(select_target(true, &none, &host), TARGET_ARM);
    let explicit = vec!["aarch64-unknown-linux-musl".to_string()];
    assert_eq!(select_target(false, &explicit, &host), "aarch64-unknown-linux-musl");
    assert_eq!(select_target(false, &none, &TARGET_ARM.to_string()), TARGET_ARM);
    assert_eq!(select_target(false, &none, &TARGET_X86_64.to_string()), TARGET_X86_64);
    assert_eq!(select_target(false, &none, &host), TARGET_X86_64);
}

#[test]
fn build_option_validation() {
    let build = Build {
        output_format: OutputFormat::Binary,
        lambda_dir: None,
        arm64: true,
        extension: false,
        target: vec![TARGET_ARM.to_string()],
        profile: None,
        release: false,
        bin: vec![],
    };
    assert!(matches!(
        build.validate_target_options(),
        Err(BuildError::InvalidTargetOptions)
    ));
    let build = Build { arm64: false, ..build };
    assert!(build.validate_target_options().is_ok());
    assert_eq!(TARGET_X86_64, "x86_64-unknown-linux-gnu");
}

#[test]
fn missing_binaries_are_reported_in_order() {
    let build = Build {
        output_format: OutputFormat::Binary,
        lambda_dir: None,
        arm64: false,
        extension: false,
        target: vec![],
        profile: None,
        release: false,
        bin: vec!["a".to_string(), "b".to_string()],
    };
    let binaries = vec!["a".to_string(), "c".to_string()];
    assert_eq!(build.missing_binary(&binaries), Some("b".to_string()));
    let binaries = vec!["a".to_string(), "b".to_string()];
    assert_eq!(build.missing_binary(&binaries), None);
}

#[test]
fn output_locations_follow_the_packaging_layout() {
    let (dir, bin) = output_location(false, &None, &"my-func".to_string());
    assert_eq!(dir, "target/lambda/my-func");
    assert_eq!(bin, "bootstrap");
    let (dir, bin) = output_location(true, &Some("out".to_string()), &"my-ext".to_string());
    assert_eq!(dir, "out/extensions");
    assert_eq!(bin, "my-ext");
}

#[test]
fn archive_plans_name_every_path() {
    let plan: ArchivePlan = find_binary_archive_plan(&"my-func".to_string(), &None, false);
    assert_eq!(plan.bootstrap_dir, "target/lambda/my-func");
    assert_eq!(plan.binary_name, "bootstrap");
    assert_eq!(plan.binary_path, "target/lambda/my-func/bootstrap");
    assert_eq!(plan.zipped_path, "target/lambda/my-func/bootstrap.zip");
    assert!(plan.parent.is_none());
    assert_eq!(plan.build_subcommand, "build");

    let plan = find_binary_archive_plan(&"my-ext".to_string(), &Some("base".to_string()), true);
    assert_eq!(plan.bootstrap_dir, "base/extensions");
    assert_eq!(plan.binary_name, "my-ext");
    assert_eq!(plan.binary_path, "base/extensions/my-ext");
    assert_eq!(plan.zipped_path, "base/extensions/my-ext.zip");
    assert_eq!(plan.parent.as_deref(), Some("extensions"));
    assert_eq!(plan.build_subcommand, "build --extension");

    assert_eq!(archive_entry_name(&Some("extensions".to_string()), &"e".to_string()), "extensions/e");
    assert_eq!(archive_entry_name(&None, &"bootstrap".to_string()), "bootstrap");
    assert_eq!(join_path("a", "b"), "a/b");
}

#[test]
fn hex_spells_bytes_in_uppercase() {
    assert_eq!(hex_upper(&[0u8; 0]), "");
    assert_eq!(hex_upper(&[0x00, 0xFF, 0x1A]), "00FF1A");
}

#[test]
fn binary_archive_info_reads_architecture_and_digest() {
    let elf = minimal_elf_x86_64();
    let archive: BinaryArchive =
        binary_archive_info(&elf, "target/lambda/f/bootstrap.zip".to_string()).unwrap();
    assert_eq!(archive.architecture, "x86_64");
    assert_eq!(
        archive.sha256,
        "51224867E5FB13D0C6052397C9F4959C7C87BB8BC7D750C91429728A18B507D9"
    );
    assert_eq!(archive.path, "target/lambda/f/bootstrap.zip");
}

#[test]
fn unreadable_binaries_are_rejected() {
    let r = binary_archive_info(b"not an object file", "x.zip".to_string());
    assert!(matches!(r, Err(BuildError::InvalidBinaryData)));
}

#[test]
fn output_formats_parse_ignoring_case() {
    assert!(matches!(OutputFormat::parse("binary"), Some(OutputFormat::Binary)));
    assert!(matches!(OutputFormat::parse("ZIP"), Some(OutputFormat::Zip)));
    assert!(OutputFormat::parse("tar").is_none());
    assert_eq!(OutputFormat::Binary.as_str(), "Binary");
    assert_eq!(OutputFormat::Zip.as_str(), "Zip");
    assert!(matches!(DeployOutputFormat::parse("Text"), Some(DeployOutputFormat::Text)));
    assert!(matches!(DeployOutputFormat::parse("json"), Some(DeployOutputFormat::Json)));
    assert!(DeployOutputFormat::parse("yaml").is_none());
}

#[test]
fn deploy_url_flag_conflict_is_rejected() {
    let mut d = base_deploy();
    assert!(d.validate_function_url_options().is_ok());
    d.enable_function_url = true;
    d.disable_function_url = true;
    assert!(matches!(
        d.validate_function_url_options(),
        Err(DeployError::ConflictingFunctionUrlOptions)
    ));
}

#[test]
fn deploy_names_fall_back_in_order() {
    let mut d = base_deploy();
    assert_eq!(d.binary_name_or_default(&"func".to_string()), "func");
    d.binary_name = Some("the-binary".to_string());
    assert_eq!(d.binary_name_or_default(&"func".to_string()), "the-binary");
}

#[test]
fn deploy_tags_prefer_the_joined_list() {
    let mut d = base_deploy();
    assert!(d.effective_tags().is_none());
    d.tag = Some(vec!["team=lambda".to_string()]);
    assert_eq!(d.effective_tags(), Some(vec!["team=lambda".to_string()]));
    d.tags = Some(vec!["organization=aws".to_string()]);
    assert_eq!(d.effective_tags(), Some(vec!["organization=aws".to_string()]));
}

#[test]
fn paths_split_into_parent_and_file_name() {
    assert_eq!(path_file_name(&"target/lambda/f/bootstrap".to_string()).as_deref(), Some("bootstrap"));
    assert_eq!(path_file_name(&"bootstrap".to_string()).as_deref(), Some("bootstrap"));
    assert_eq!(path_file_name(&"dir/".to_string()), None);
    assert_eq!(path_file_name(&"".to_string()), None);
    assert_eq!(path_parent_dir(&"target/lambda/f/bootstrap".to_string()), "target/lambda/f");
    assert_eq!(path_parent_dir(&"bootstrap".to_string()), "");
}

#[test]
fn binary_path_plans_reject_directories_and_nameless_paths() {
    let d = base_deploy();
    let bp = "builds/bootstrap".to_string();
    assert!(matches!(
        d.binary_path_plan(&bp, true),
        Err(DeployError::InvalidFile(p)) if p == "builds/bootstrap"
    ));
    let (name, dest) = d.binary_path_plan(&bp, false).unwrap();
    assert_eq!(name, "bootstrap");
    assert_eq!(dest, "builds");
    assert!(matches!(
        d.binary_path_plan(&"builds/".to_string(), false),
        Err(DeployError::InvalidBinaryPath(p)) if p == "builds/"
    ));
    let mut named = base_deploy();
    named.name = Some("fancy".to_string());
    let (name, _) = named.binary_path_plan(&bp, false).unwrap();
    assert_eq!(name, "fancy");
}

#[test]
fn dry_output_mirrors_the_deployment_settings() {
    let d = base_deploy();
    let archive = BinaryArchive {
        architecture: "x86_64".to_string(),
        sha256: "ABC".to_string(),
        path: "target/lambda/f/bootstrap.zip".to_string(),
    };
    let out: DryOutput = d.dry_output(
        &"f".to_string(),
        &archive,
        Some("bucket".to_string()),
        Some("team=lambda".to_string()),
        None,
    );
    assert_eq!(out.kind, "function");
    assert_eq!(out.name, "f");
    assert_eq!(out.path, "target/lambda/f/bootstrap.zip");
    assert_eq!(out.arch, "x86_64");
    assert_eq!(out.runtimes, vec!["provided.al2023".to_string()]);
    assert_eq!(out.bucket.as_deref(), Some("bucket"));
    assert_eq!(out.tags.as_deref(), Some("team=lambda"));
    assert!(out.extra_files.is_none());

    let mut e = base_deploy();
    e.extension = true;
    let out = e.dry_output(&"ext".to_string(), &archive, None, None, None);
    assert_eq!(out.kind, "extension");
    assert_eq!(out.name, "ext");
    assert_eq!(out.runtimes, vec!["provided.al2".to_string(), "provided.al2023".to_string()]);
}

#[test]
fn tls_options_are_secure_only_with_cert_and_key() {
    let mut tls = TlsOptions { tls_cert: None, tls_key: None, tls_ca: None };
    assert!(!tls.is_secure());
    assert!(tls.server_config_paths().is_none());
    tls.tls_cert = Some("cert.pem".to_string());
    assert!(!tls.is_secure());
    tls.tls_key = Some("key.pem".to_string());
    assert!(tls.is_secure());
    let (cert, key, ca) = tls.server_config_paths().unwrap();
    assert_eq!(cert, "cert.pem");
    assert_eq!(key, "key.pem");
    assert!(ca.is_none());
}
