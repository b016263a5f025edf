use trust_runtime::registry::{
    download_package, init_registry, list_packages, publish_package, registry_api_profile,
    verify_package, PackageFile, RegistryError, RegistryVisibility,
};

fn bundle() -> Vec<PackageFile> {
    vec![
        PackageFile { path: String::from("program.st"), data: b"PROGRAM Main END_PROGRAM".to_vec() },
        PackageFile { path: String::from("bundle.toml"), data: b"[runtime]\n".to_vec() },
    ]
}

fn fresh_registry() -> trust_runtime::registry::RegistryInit {
    init_registry(RegistryVisibility::Public, None, 1_000).expect("init registry")
}

#[test]
fn registry_profile_covers_required_endpoints() {
    let profile = registry_api_profile();
    assert_eq!(profile.api_version, "v1");
    assert!(profile
        .endpoints
        .iter()
        .any(|endpoint| endpoint.path == "/v1/packages/{name}/{version}"));
    assert!(profile
        .endpoints
        .iter()
        .any(|endpoint| endpoint.path == "/v1/packages/{name}/{version}/verify"));
    assert!(profile
        .metadata_model
        .package_fields
        .iter()
        .any(|field| field == "package_sha256"));
}

#[test]
fn publish_then_verify_succeeds() {
    let init = fresh_registry();
    let files = bundle();
    let outcome = publish_package(
        &init.config,
        None,
        Some(String::from("pump")),
        String::from("1.0.0"),
        String::from("pump"),
        1,
        &files,
        false,
        init.index,
        2_000,
    )
    .expect("publish");
    assert_eq!(outcome.metadata.files.len(), 2);
    assert_eq!(outcome.metadata.package_sha256.len(), 64);
    assert_eq!(outcome.metadata.files[0].path, "bundle.toml");
    assert_eq!(outcome.metadata.files[1].path, "program.st");
    let report = verify_package(&init.config, None, outcome.metadata, &files).expect("verify");
    assert_eq!(report.verified_files, 2);
}

#[test]
fn mutating_any_file_flips_verify_while_list_succeeds() {
    let init = fresh_registry();
    let files = bundle();
    let outcome = publish_package(
        &init.config,
        None,
        Some(String::from("pump")),
        String::from("1.0.0"),
        String::from("pump"),
        1,
        &files,
        false,
        init.index,
        2_000,
    )
    .expect("publish");
    for target in 0..files.len() {
        for byte in 0..files[target].data.len() {
            if byte > 2 {
                break;
            }
            let mut mutated = bundle();
            mutated[target].data[byte] ^= 0x55;
            let metadata = verify_package(
                &init.config,
                None,
                clone_metadata(&outcome.metadata),
                &files,
            )
            .expect("clean verify")
            .metadata;
            let result = verify_package(&init.config, None, metadata, &mutated);
            assert!(result.is_err(), "mutated byte must fail verification");
        }
    }
    let listing = list_packages(&init.config, None, outcome.index).expect("list");
    assert_eq!(listing.len(), 1);
    assert_eq!(listing[0].name, "pump");
}

fn clone_metadata(
    m: &trust_runtime::registry::PackageMetadata,
) -> trust_runtime::registry::PackageMetadata {
    trust_runtime::registry::PackageMetadata {
        name: m.name.clone(),
        version: m.version.clone(),
        resource_name: m.resource_name.clone(),
        bundle_version: m.bundle_version,
        published_at_unix: m.published_at_unix,
        total_bytes: m.total_bytes,
        package_sha256: m.package_sha256.clone(),
        files: m
            .files
            .iter()
            .map(|f| trust_runtime::registry::PackageFileDigest {
                path: f.path.clone(),
                bytes: f.bytes,
                sha256: f.sha256.clone(),
            })
            .collect(),
    }
}

#[test]
fn download_with_verification_checks_the_stored_tree() {
    let init = fresh_registry();
    let files = bundle();
    let outcome = publish_package(
        &init.config,
        None,
        None,
        String::from("2.0.0"),
        String::from("mixer"),
        3,
        &files,
        false,
        init.index,
        2_000,
    )
    .expect("publish");
    let report =
        download_package(&init.config, None, outcome.metadata, &files, true).expect("download");
    assert_eq!(report.metadata.name, "mixer");
}

#[test]
fn private_registry_requires_matching_token() {
    let init = init_registry(
        RegistryVisibility::Private,
        Some(String::from("SECRET-REDACTED")),
        1_000,
    )
    .expect("init private");
    let files = bundle();
    let denied = publish_package(
        &init.config,
        Some("wrong"),
        None,
        String::from("1.0.0"),
        String::from("pump"),
        1,
        &files,
        false,
        trust_runtime::registry::RegistryIndex {
            schema_version: 1,
            generated_at_unix: 0,
            packages: Vec::new(),
        },
        2_000,
    );
    assert!(matches!(denied, Err(RegistryError::Unauthorized)));
    let blank = init_registry(RegistryVisibility::Private, Some(String::from("   ")), 1_000);
    assert!(matches!(blank, Err(RegistryError::PrivateNeedsToken)));
}

#[test]
fn republishing_an_existing_version_is_refused() {
    let init = fresh_registry();
    let files = bundle();
    let refused = publish_package(
        &init.config,
        None,
        Some(String::from("pump")),
        String::from("1.0.0"),
        String::from("pump"),
        1,
        &files,
        true,
        init.index,
        2_000,
    );
    assert!(matches!(refused, Err(RegistryError::PackageExists)));
}

#[test]
fn bad_identifiers_and_empty_bundles_are_refused() {
    let init = fresh_registry();
    let empty: Vec<PackageFile> = Vec::new();
    let refused = publish_package(
        &init.config,
        None,
        Some(String::from("pump pump")),
        String::from("1.0.0"),
        String::from("pump"),
        1,
        &empty,
        false,
        init.index,
        2_000,
    );
    assert!(matches!(refused, Err(RegistryError::InvalidIdentifier(_))));
    let init2 = fresh_registry();
    let refused2 = publish_package(
        &init2.config,
        None,
        Some(String::from("pump")),
        String::from("1.0.0"),
        String::from("pump"),
        1,
        &empty,
        false,
        init2.index,
        2_000,
    );
    assert!(matches!(refused2, Err(RegistryError::EmptyPayload)));
}
