use cargo_lambda::cargo::{
    CODEGEN_CONFIG, CargoMetadata, CargoPackage, CargoProfile, CargoProfileRelease, CargoTarget,
    LTO_CONFIG, LambdaMetadata, ManifestMetadata, Metadata, PANIC_CONFIG, PackageMetadata,
    STRIP_CONFIG, binary_targets_from_metadata, cargo_release_profile_config_from_metadata,
    function_environment_from_metadata, kind_bin_filter, kind_example_filter,
    main_binary_from_metadata, sort_strings, target_dir_from_metadata,
};
use cargo_lambda::lambda::{Memory, MetadataError, Timeout, Tracing};
use cargo_lambda::strmap::StrMap;

fn target(name: &str, kinds: &[&str], crate_types: &[&str]) -> CargoTarget {
    CargoTarget {
        name: name.to_string(),
        kind: kinds.iter().map(|k| k.to_string()).collect(),
        crate_types: crate_types.iter().map(|t| t.to_string()).collect(),
    }
}

fn empty_lambda() -> LambdaMetadata {
    LambdaMetadata { package: PackageMetadata { env: StrMap::new() }, bin: StrMap::new() }
}

fn package(name: &str, targets: Vec<CargoTarget>) -> CargoPackage {
    CargoPackage { name: name.to_string(), targets, metadata: ManifestMetadata::Absent }
}

fn project(packages: Vec<CargoPackage>) -> CargoMetadata {
    CargoMetadata {
        packages,
        target_directory: "/work/target".to_string(),
        workspace_lambda: empty_lambda(),
    }
}

fn env_table(pairs: &[(&str, &str)]) -> StrMap<String> {
    let mut m = StrMap::new();
    for (k, v) in pairs {
        m.insert(&k.to_string(), v.to_string());
    }
    m
}

#[test]
fn binary_targets_keep_first_seen_order_without_duplicates() {
    let m = project(vec![
        package(
            "multi",
            vec![
                target("delete-product", &["bin"], &["bin"]),
                target("get-product", &["bin"], &["bin"]),
                target("some-lib", &["lib"], &["lib"]),
                target("delete-product", &["bin"], &["bin"]),
            ],
        ),
        package("other", vec![target("put-product", &["bin"], &["bin"])]),
    ]);
    let bins = binary_targets_from_metadata(&m, false);
    assert_eq!(bins, vec!["delete-product", "get-product", "put-product"]);
}

#[test]
fn example_targets_need_a_binary_crate_type() {
    let m = project(vec![package(
        "examples",
        vec![
            target("example-lambda", &["example"], &["bin"]),
            target("example-lib", &["example"], &["lib"]),
            target("ordinary", &["bin"], &["bin"]),
        ],
    )]);
    let bins = binary_targets_from_metadata(&m, true);
    assert_eq!(bins, vec!["example-lambda"]);
}

#[test]
fn kind_filters_inspect_kind_and_crate_type() {
    assert!(kind_bin_filter(&target("a", &["bin"], &["bin"])));
    assert!(!kind_bin_filter(&target("a", &["lib"], &["bin"])));
    assert!(kind_example_filter(&target("a", &["example"], &["bin"])));
    assert!(!kind_example_filter(&target("a", &["example"], &["lib"])));
    assert!(!kind_example_filter(&target("a", &["bin"], &["bin"])));
}

#[test]
fn main_binary_of_a_single_binary_project() {
    let m = project(vec![package("single", vec![target("basic-lambda", &["bin"], &["bin"])])]);
    assert_eq!(main_binary_from_metadata(&m).unwrap(), "basic-lambda");
}

#[test]
fn main_binary_fails_without_binaries() {
    let m = project(vec![package("none", vec![target("the-lib", &["lib"], &["lib"])])]);
    assert!(matches!(
        main_binary_from_metadata(&m),
        Err(MetadataError::MissingBinaryInProject)
    ));
}

#[test]
fn main_binary_names_every_candidate_when_ambiguous() {
    let m = project(vec![package(
        "multi",
        vec![
            target("put-product", &["bin"], &["bin"]),
            target("delete-product", &["bin"], &["bin"]),
            target("get-product", &["bin"], &["bin"]),
        ],
    )]);
    match main_binary_from_metadata(&m) {
        Err(MetadataError::MultipleBinariesInProject(msg)) => {
            assert_eq!(msg, "delete-product, get-product, put-product");
        }
        other => panic!("expected the ambiguous-binaries error, got {other:?}"),
    }
}

#[test]
fn strings_sort_lexicographically() {
    let v = vec!["pear".to_string(), "apple".to_string(), "peach".to_string(), "".to_string()];
    assert_eq!(sort_strings(v), vec!["", "apple", "peach", "pear"]);
    let empty: Vec<String> = vec![];
    assert!(sort_strings(empty).is_empty());
}

#[test]
fn target_dir_is_read_from_the_metadata() {
    let m = project(vec![]);
    assert_eq!(target_dir_from_metadata(&m), "/work/target");
}

#[test]
fn test_release_config() {
    let config = cargo_release_profile_config_from_metadata(&Metadata {
        lambda: empty_lambda(),
        profile: None,
    });
    assert!(config.contains(&STRIP_CONFIG));
    assert!(config.contains(&LTO_CONFIG));
    assert!(config.contains(&CODEGEN_CONFIG));
    assert!(config.contains(&PANIC_CONFIG));
}

#[test]
fn release_config_drops_what_the_manifest_settles() {
    let config = cargo_release_profile_config_from_metadata(&Metadata {
        lambda: empty_lambda(),
        profile: Some(CargoProfile {
            release: Some(CargoProfileRelease {
                strip: Some("none".to_string()),
                debug_enabled: false,
                lto: None,
                codegen_units: Some(16),
                panic: None,
            }),
        }),
    });
    assert!(!config.contains(&STRIP_CONFIG));
    assert!(config.contains(&LTO_CONFIG));
    assert!(!config.contains(&CODEGEN_CONFIG));
    assert!(config.contains(&PANIC_CONFIG));
}

#[test]
fn function_environment_merges_workspace_package_and_binary_tables() {
    let mut bin_overrides = StrMap::new();
    bin_overrides.insert(
        &"basic-lambda".to_string(),
        PackageMetadata { env: env_table(&[("FOO", "BAR")]) },
    );
    let pkg_metadata = Metadata {
        lambda: LambdaMetadata {
            package: PackageMetadata { env: env_table(&[("BASE", "1"), ("FOO", "base")]) },
            bin: bin_overrides,
        },
        profile: None,
    };
    let m = CargoMetadata {
        packages: vec![CargoPackage {
            name: "single-binary-package".to_string(),
            targets: vec![target("basic-lambda", &["bin"], &["bin"])],
            metadata: ManifestMetadata::Parsed(pkg_metadata),
        }],
        target_directory: "target".to_string(),
        workspace_lambda: LambdaMetadata {
            package: PackageMetadata { env: env_table(&[("WS", "yes")]) },
            bin: StrMap::new(),
        },
    };
    let env = function_environment_from_metadata(&m, Some(&"basic-lambda".to_string())).unwrap();
    assert_eq!(env.get(&"FOO".to_string()), Some(&"BAR".to_string()));
    assert_eq!(env.get(&"BASE".to_string()), Some(&"1".to_string()));
    assert_eq!(env.get(&"WS".to_string()), Some(&"yes".to_string()));
    assert_eq!(env.get(&"MISSING".to_string()), None);
}

#[test]
fn function_environment_skips_packages_without_matching_target() {
    let pkg_metadata = Metadata {
        lambda: LambdaMetadata {
            package: PackageMetadata { env: env_table(&[("FOO", "BAR")]) },
            bin: StrMap::new(),
        },
        profile: None,
    };
    let m = CargoMetadata {
        packages: vec![CargoPackage {
            name: "pkg".to_string(),
            targets: vec![target("other-binary", &["bin"], &["bin"])],
            metadata: ManifestMetadata::Parsed(pkg_metadata),
        }],
        target_directory: "target".to_string(),
        workspace_lambda: empty_lambda(),
    };
    let env = function_environment_from_metadata(&m, Some(&"wanted".to_string())).unwrap();
    assert_eq!(env.get(&"FOO".to_string()), None);
}

#[test]
fn function_environment_reports_unparseable_metadata() {
    let m = CargoMetadata {
        packages: vec![CargoPackage {
            name: "bad".to_string(),
            targets: vec![target("bad", &["bin"], &["bin"])],
            metadata: ManifestMetadata::Invalid("bad lambda table".to_string()),
        }],
        target_directory: "target".to_string(),
        workspace_lambda: empty_lambda(),
    };
    match function_environment_from_metadata(&m, None) {
        Err(MetadataError::InvalidCargoMetadata(words)) => {
            assert_eq!(words, "bad lambda table");
        }
        other => panic!("expected the invalid-metadata error, got {other:?}"),
    }
}

#[test]
fn timeout_values_and_parsing() {
    assert!(Timeout::new(0).is_zero());
    assert!(!Timeout::new(30).is_zero());
    assert_eq!(Timeout::default(), Timeout::new(30));
    assert_eq!(Timeout::parse("30").unwrap(), Timeout::new(30));
    assert_eq!(Timeout::parse("+7").unwrap(), Timeout::new(7));
    assert_eq!(Timeout::parse("4294967295").unwrap(), Timeout::new(u32::MAX));
    assert!(matches!(Timeout::parse("4294967296"), Err(MetadataError::InvalidTimeout)));
    assert!(matches!(Timeout::parse(""), Err(MetadataError::InvalidTimeout)));
    assert!(matches!(Timeout::parse("12s"), Err(MetadataError::InvalidTimeout)));
    assert_eq!("45".parse::<Timeout>().unwrap(), Timeout::new(45));
    assert_eq!(i32::from(Timeout::new(90)), 90);
    assert_eq!(Timeout::from(90), Timeout::new(90));
    assert_eq!(Timeout::new(10).duration(), core::time::Duration::from_secs(10));
}

#[test]
fn memory_accepts_only_the_platform_range() {
    assert!(matches!(Memory::try_from(127), Err(MetadataError::InvalidMemory(127))));
    assert_eq!(Memory::try_from(128).unwrap(), Memory(128));
    assert_eq!(Memory::try_from(10240).unwrap(), Memory(10240));
    assert!(matches!(Memory::try_from(10241), Err(MetadataError::InvalidMemory(10241))));
    assert_eq!(i32::from(Memory(512)), 512);
}

#[test]
fn tracing_names_and_parsing() {
    assert_eq!(Tracing::Active.as_str(), "Active");
    assert_eq!(Tracing::PassThrough.as_str(), "PassThrough");
    assert_eq!(Tracing::default(), Tracing::PassThrough);
    assert_eq!(Tracing::try_from("active".to_string()).unwrap(), Tracing::Active);
    assert_eq!(Tracing::try_from("ACTIVE".to_string()).unwrap(), Tracing::Active);
    assert_eq!(Tracing::try_from("PassThrough".to_string()).unwrap(), Tracing::PassThrough);
    match Tracing::try_from("sometimes".to_string()) {
        Err(MetadataError::InvalidTracing(s)) => assert_eq!(s, "sometimes"),
        other => panic!("expected the invalid-tracing error, got {other:?}"),
    }
}

#[test]
fn strmap_behaves_like_a_map() {
    let mut m: StrMap<u32> = StrMap::new();
    assert!(!m.contains_key(&"k".to_string()));
    m.insert(&"k".to_string(), 1);
    m.insert(&"l".to_string(), 2);
    m.insert(&"k".to_string(), 3);
    assert_eq!(m.get(&"k".to_string()), Some(&3));
    assert_eq!(m.get(&"l".to_string()), Some(&2));
    assert_eq!(m.remove(&"k".to_string()), Some(3));
    assert_eq!(m.remove(&"k".to_string()), None);
    let mut a = env_table(&[("A", "1"), ("B", "2")]);
    let b = env_table(&[("B", "3"), ("C", "4")]);
    a.extend_from(&b);
    assert_eq!(a.get(&"A".to_string()), Some(&"1".to_string()));
    assert_eq!(a.get(&"B".to_string()), Some(&"3".to_string()));
    assert_eq!(a.get(&"C".to_string()), Some(&"4".to_string()));
    let mut keys = a.keys();
    keys.sort();
    assert_eq!(keys, vec!["A", "B", "C"]);
}
