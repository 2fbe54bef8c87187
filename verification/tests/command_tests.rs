use buildpack_actions::actions::{set_output, set_summary};
use buildpack_actions::changelog::Changelog;
use buildpack_actions::date::Date;
use buildpack_actions::entry::{changelog_entry, generate_changelog, ChangelogEntry, ChangelogEntryType};
use buildpack_actions::links::generate_release_declarations;
use buildpack_actions::matrix::{
    buildpack_type, cnb_file, generate_tag, has_bin_files, has_cargo_toml, list_versions,
    rust_triple, target_name, target_output_dir, BuildpackType, BuildpackTypeError, Target,
};
use buildpack_actions::paths::resolve_path;
use buildpack_actions::prep::{get_fixed_version, list_versions_with_path, PrepareReleaseError};
use buildpack_actions::promote::{promote, promote_changelog_unreleased_to_version};
use buildpack_actions::registry::{
    get_index_path, get_namespace_and_name, registry_index_lines, version_is_registered,
};
use buildpack_actions::version::{get_next_version, BumpCoordinate, Version};

#[test]
fn test_get_namespace_and_name() {
    assert_eq!(
        get_namespace_and_name("heroku/jvm").unwrap(),
        ("heroku".to_string(), "jvm".to_string())
    );
    assert_eq!(get_namespace_and_name("no-slash"), None);
}

#[test]
fn test_get_index_path_when_name_is_len_1() {
    assert_eq!(get_index_path("heroku", "z"), "1/heroku_z");
}

#[test]
fn test_get_index_path_when_name_is_len_2() {
    assert_eq!(get_index_path("heroku", "go"), "2/heroku_go");
}

#[test]
fn test_get_index_path_when_name_is_len_3() {
    assert_eq!(get_index_path("heroku", "php"), "3/ph/heroku_php");
}

#[test]
fn test_get_index_path_when_name_is_greater_than_3() {
    assert_eq!(get_index_path("heroku", "scala"), "sc/al/heroku_scala");
}

#[test]
fn test_registry_index_lines_and_version_lookup() {
    let contents = "\n{\"version\":\"0.0.88\"}\n   \n{\"version\":\"1.0.0\"}\n";
    let lines = registry_index_lines(contents);
    assert_eq!(
        lines,
        vec![
            "{\"version\":\"0.0.88\"}".to_string(),
            "{\"version\":\"1.0.0\"}".to_string()
        ]
    );
    let versions = vec!["0.0.88".to_string(), "1.0.0".to_string()];
    assert!(version_is_registered(&versions, "1.0.0"));
    assert!(!version_is_registered(&versions, "1.1.1"));
}

#[test]
fn test_parse_registry_index() {
    let contents = r#"
{"ns":"heroku","name":"scala","version":"0.0.88","yanked":true,"addr":"docker.io/heroku/buildpack-scala@sha256:7a58fd9774925a6e23ce638cc4c7b57fdb9a14092632bc00c10081bb226f19b3"}
{"ns":"heroku","name":"scala","version":"0.0.89","yanked":false,"addr":"docker.io/heroku/buildpack-scala@sha256:d7381e85924a808bad28d44c988d79e6abb6b5f9dd98ee31996f54a3ea653143"}
{"ns":"heroku","name":"scala","version":"0.0.90","yanked":false,"addr":"docker.io/heroku/buildpack-scala@sha256:39ad34bcc1766cdff4f2a4d5e88931a2f2678f5605bd56f1b6fc551f40fba70f"}
{"ns":"heroku","name":"scala","version":"0.0.91","yanked":false,"addr":"docker.io/heroku/buildpack-scala@sha256:99b35329c3c5af4deaab1892a6ccfad9d0646fcb8bf6fe04c688f0429d95fc11"}
{"ns":"heroku","name":"scala","version":"0.0.92","yanked":false,"addr":"docker.io/heroku/buildpack-scala@sha256:02a26d364465a567782806effa2afbf4b992a1e15453bb8e62c5da27118dc7e6"}
{"ns":"heroku","name":"scala","version":"1.0.0","yanked":false,"addr":"docker.io/heroku/buildpack-scala@sha256:1fc6beaf291dcf1972c621afe3a1b3a80d1bffe8fccb6b0a68bc7f24bf99456a"}
{"ns":"heroku","name":"scala","version":"1.1.1","yanked":false,"addr":"docker.io/heroku/buildpack-scala@sha256:dd41aacd9ce11a11fdc3f0ba0bf4cd8a816fc56c634d30c2806998b5fce9534d"}
        "#;

    let registry_entries = registry_index_lines(contents)
        .iter()
        .map(|line| serde_json::from_str::<serde_json::Value>(line).unwrap())
        .collect::<Vec<_>>();
    assert_eq!(
        registry_entries
            .into_iter()
            .map(|registry_entry| registry_entry
                .get("version")
                .and_then(|v| v.as_str())
                .unwrap()
                .to_string())
            .collect::<Vec<_>>(),
        vec!["0.0.88", "0.0.89", "0.0.90", "0.0.91", "0.0.92", "1.0.0", "1.1.1"]
    );
}

#[test]
fn test_get_fixed_version() {
    let buildpack_a = ("/a/buildpack.toml".to_string(), Version { major: 0, minor: 0, patch: 0 });
    let buildpack_b = ("/b/buildpack.toml".to_string(), Version { major: 0, minor: 0, patch: 0 });
    assert_eq!(
        get_fixed_version(&vec![buildpack_a, buildpack_b]).unwrap(),
        Version {
            major: 0,
            minor: 0,
            patch: 0
        }
    );
}

#[test]
fn test_get_fixed_version_errors_if_there_is_a_version_mismatch() {
    let buildpack_a = ("/a/buildpack.toml".to_string(), Version { major: 0, minor: 0, patch: 0 });
    let buildpack_b = ("/b/buildpack.toml".to_string(), Version { major: 0, minor: 0, patch: 1 });
    match get_fixed_version(&vec![buildpack_a.clone(), buildpack_b.clone()]).unwrap_err() {
        PrepareReleaseError::NotAllVersionsMatch(version_map) => {
            assert_eq!(version_map, vec![buildpack_a, buildpack_b]);
        }
        PrepareReleaseError::NoFixedVersion => panic!("Expected error NotAllVersionsMatch"),
    };
}

#[test]
fn test_get_next_version() {
    let current = Version { major: 1, minor: 2, patch: 3 };
    assert_eq!(
        get_next_version(&current, &BumpCoordinate::Major),
        Version { major: 2, minor: 0, patch: 0 }
    );
    assert_eq!(
        get_next_version(&current, &BumpCoordinate::Minor),
        Version { major: 1, minor: 3, patch: 0 }
    );
    assert_eq!(
        get_next_version(&current, &BumpCoordinate::Patch),
        Version { major: 1, minor: 2, patch: 4 }
    );
}

#[test]
fn test_promote_places_new_entry_first_and_keeps_order() {
    let changelog = Changelog::try_from(
        "## [Unreleased]\n\n### Added\n\n- new\n\n## [0.8.16] - 2023-02-27\n\n- a\n\n## [0.8.15] - 2023-02-26\n\n- b",
    )
    .unwrap();
    let promoted = promote(
        &changelog,
        &Version { major: 0, minor: 8, patch: 17 },
        &Date { year: 2023, month: 3, day: 1 },
        &vec![],
    );
    assert_eq!(promoted.unreleased, None);
    let keys = promoted.releases.keys().collect::<Vec<_>>();
    assert_eq!(keys, vec!["0.8.17", "0.8.16", "0.8.15"]);
    assert_eq!(promoted.releases.get("0.8.17").unwrap().body, "### Added\n\n- new");
    assert_eq!(promoted.releases.get("0.8.16").unwrap().body, "- a");
}

#[test]
fn test_promote_to_an_existing_version_keeps_keys_unique() {
    let changelog = Changelog::try_from(
        "## [Unreleased]\n\n- redo\n\n## [1.0.0] - 2023-01-01\n\n- old\n\n## [0.9.0] - 2022-12-01\n\n- b",
    )
    .unwrap();
    let promoted = promote(
        &changelog,
        &Version { major: 1, minor: 0, patch: 0 },
        &Date { year: 2023, month: 3, day: 1 },
        &vec![],
    );
    let keys = promoted.releases.keys().collect::<Vec<_>>();
    assert_eq!(keys, vec!["1.0.0", "0.9.0"]);
    assert_eq!(promoted.releases.get("1.0.0").unwrap().body, "- redo");
}

#[test]
fn test_promote_with_no_unreleased_content_and_no_extras_uses_placeholder() {
    let changelog = Changelog::try_from("## [Unreleased]").unwrap();
    let promoted = promote(
        &changelog,
        &Version { major: 1, minor: 0, patch: 0 },
        &Date { year: 2023, month: 3, day: 1 },
        &vec![],
    );
    assert_eq!(promoted.releases.get("1.0.0").unwrap().body, "No changes.");
}

#[test]
fn test_promote_merges_extra_lines_into_existing_changed_subsection() {
    let changelog = Changelog::try_from(
        "## [Unreleased]\n\n### Changed\n\n- Added feature X",
    )
    .unwrap();
    let promoted = promote(
        &changelog,
        &Version { major: 1, minor: 2, patch: 3 },
        &Date { year: 2023, month: 3, day: 1 },
        &vec!["- Updated dep to 1.2.3".to_string()],
    );
    assert_eq!(
        promoted.releases.get("1.2.3").unwrap().body,
        "### Changed\n\n- Added feature X\n- Updated dep to 1.2.3"
    );
}

#[test]
fn test_promote_merge_preserves_later_subsections() {
    let changelog = Changelog::try_from(
        "## [Unreleased]\n\n### Changed\n\n- a\n\n### Added\n\n- b",
    )
    .unwrap();
    let promoted = promote(
        &changelog,
        &Version { major: 1, minor: 2, patch: 3 },
        &Date { year: 2023, month: 3, day: 1 },
        &vec!["- x".to_string()],
    );
    assert_eq!(
        promoted.releases.get("1.2.3").unwrap().body,
        "### Changed\n\n- a\n- x\n\n### Added\n\n- b"
    );
}

#[test]
fn test_promote_appends_changed_subsection_when_none_exists() {
    let changelog = Changelog::try_from("## [Unreleased]\n\n### Added\n\n- new").unwrap();
    let promoted = promote(
        &changelog,
        &Version { major: 1, minor: 2, patch: 3 },
        &Date { year: 2023, month: 3, day: 1 },
        &vec!["- x".to_string()],
    );
    assert_eq!(
        promoted.releases.get("1.2.3").unwrap().body,
        "### Added\n\n- new\n\n### Changed\n\n- x"
    );
}

#[test]
fn test_promote_changelog_unreleased_to_version_sorts_and_formats_dependencies() {
    let changelog = Changelog::try_from(
        "## [Unreleased]\n\n## [0.8.16] - 2023-02-27\n\n- a",
    )
    .unwrap();
    let promoted = promote_changelog_unreleased_to_version(
        &changelog,
        &Version { major: 0, minor: 8, patch: 17 },
        &Date { year: 2023, month: 3, day: 1 },
        &vec!["b".to_string(), "a".to_string(), "b".to_string()],
    );
    assert_eq!(
        promoted.releases.get("0.8.17").unwrap().body,
        "### Changed\n\n- Updated `a` to `0.8.17`.\n- Updated `b` to `0.8.17`."
    );
    let text = promoted.to_text();
    assert!(text.contains("## [0.8.17] - 2023-03-01\n\n### Changed\n\n- Updated `a` to `0.8.17`.\n- Updated `b` to `0.8.17`.\n\n## [0.8.16] - 2023-02-27"));
}

#[test]
fn test_link_chain_for_three_versions() {
    let changelog = Changelog::try_from(
        "## [1.1.1] - 2023-03-05\n\n- a\n\n## [1.1.0] - 2023-02-01\n\n- b\n\n## [1.0.0] - 2023-01-01\n\n- c",
    )
    .unwrap();
    let declarations = generate_release_declarations(&changelog, "R", &None);
    assert_eq!(
        declarations,
        "[unreleased]: R/compare/v1.1.1...HEAD\n[1.1.1]: R/compare/v1.1.0...v1.1.1\n[1.1.0]: R/compare/v1.0.0...v1.1.0\n[1.0.0]: R/releases/tag/v1.0.0"
    );
}

#[test]
fn test_list_versions_with_path_bullets() {
    let pairs = vec![
        ("/a/buildpack.toml".to_string(), Version { major: 1, minor: 0, patch: 0 }),
        ("/b/buildpack.toml".to_string(), Version { major: 1, minor: 0, patch: 1 }),
    ];
    assert_eq!(
        list_versions_with_path(&pairs),
        "\u{2022} 1.0.0 (/a/buildpack.toml)\n\u{2022} 1.0.1 (/b/buildpack.toml)"
    );
}

#[test]
fn test_floor_excludes_older_releases_from_the_chain() {
    let changelog = Changelog::try_from(
        "## [1.1.1] - 2023-03-05\n\n- a\n\n## [1.0.0] - 2023-01-01\n\n- b\n\n## [0.9.0] - 2022-12-01\n\n- c",
    )
    .unwrap();
    let declarations = generate_release_declarations(
        &changelog,
        "https://example.com/repo",
        &Some(Version { major: 1, minor: 0, patch: 0 }),
    );
    assert_eq!(
        declarations,
        "[unreleased]: https://example.com/repo/compare/v1.1.1...HEAD\n[1.1.1]: https://example.com/repo/compare/v1.0.0...v1.1.1\n[1.0.0]: https://example.com/repo/releases/tag/v1.0.0"
    );
    assert!(!declarations.contains("0.9.0"));
}

#[test]
fn test_changelog_entry_selection() {
    let changelog = Changelog::try_from(
        "## [Unreleased]\n\n- pending\n\n## [1.0.0] - 2023-01-01\n\n- done\n\n## [0.9.9] - 2022-12-31",
    )
    .unwrap();
    assert_eq!(
        changelog_entry(&changelog, &ChangelogEntryType::Unreleased),
        ChangelogEntry::Changes("- pending".to_string())
    );
    assert_eq!(
        changelog_entry(&changelog, &ChangelogEntryType::Version("1.0.0".to_string())),
        ChangelogEntry::Changes("- done".to_string())
    );
    assert_eq!(
        changelog_entry(&changelog, &ChangelogEntryType::Version("0.9.9".to_string())),
        ChangelogEntry::Empty
    );
    assert_eq!(
        changelog_entry(&changelog, &ChangelogEntryType::Version("7.7.7".to_string())),
        ChangelogEntry::VersionNotPresent
    );
}

#[test]
fn test_generating_changelog() {
    let values = vec![
        ("c".to_string(), ChangelogEntry::Changes("- change c.1".to_string())),
        ("a".to_string(), ChangelogEntry::Changes("- change a.1\n- change a.2".to_string())),
        ("b".to_string(), ChangelogEntry::VersionNotPresent),
        ("d".to_string(), ChangelogEntry::Empty),
    ];

    assert_eq!(
        generate_changelog(&values),
        r"## a

- change a.1
- change a.2

## c

- change c.1

## d

- No changes.

"
    );
}

#[test]
fn test_generate_tag_and_cnb_file() {
    assert_eq!(generate_tag("docker.io/heroku/buildpack-fakey", "_918273", Some("linux-amd64")), "docker.io/heroku/buildpack-fakey:_918273_linux-amd64");
    assert_eq!(generate_tag("docker.io/heroku/buildpack-fakey", "3.2.1", None), "docker.io/heroku/buildpack-fakey:3.2.1");
    assert_eq!(cnb_file("heroku/fakeymcfakeface", None), "heroku_fakeymcfakeface.cnb");
    assert_eq!(cnb_file("heroku/fakeymcfakeface", Some("linux-arm64")), "heroku_fakeymcfakeface_linux-arm64.cnb");
}

#[test]
fn test_target_name_and_rust_triple() {
    let t = Target { os: Some("linux".to_string()), arch: Some("amd64".to_string()), variant: None };
    assert_eq!(target_name(&t), "linux-amd64");
    assert_eq!(rust_triple(&t), Some("x86_64-unknown-linux-musl".to_string()));
    let t2 = Target { os: Some("linux".to_string()), arch: Some("arm64".to_string()), variant: None };
    assert_eq!(rust_triple(&t2), Some("aarch64-unknown-linux-musl".to_string()));
    let t3 = Target { os: None, arch: Some("arm64".to_string()), variant: None };
    assert_eq!(target_name(&t3), "universal-arm64");
    assert_eq!(rust_triple(&t3), None);
    let t4 = Target { os: None, arch: None, variant: None };
    assert_eq!(target_name(&t4), "universal");
}

#[test]
fn test_target_output_dir() {
    assert_eq!(
        target_output_dir("./packaged-fake", "x86_64-unknown-linux-musl", "heroku/fakeymcfakeface"),
        "./packaged-fake/x86_64-unknown-linux-musl/release/heroku_fakeymcfakeface"
    );
}

#[test]
fn test_buildpack_type_decision_table() {
    assert_eq!(buildpack_type(true, false, false), Ok(BuildpackType::Composite));
    assert_eq!(buildpack_type(true, true, false), Err(BuildpackTypeError::MultipleTypes));
    assert_eq!(buildpack_type(false, true, false), Ok(BuildpackType::Libcnb));
    assert_eq!(buildpack_type(false, false, true), Ok(BuildpackType::Bash));
    assert_eq!(buildpack_type(false, false, false), Err(BuildpackTypeError::UnknownType));
    assert_eq!(buildpack_type(false, true, true), Err(BuildpackTypeError::MultipleTypes));
}

#[test]
fn test_directory_evidence_checks() {
    let files = vec!["Cargo.toml".to_string(), "src".to_string()];
    assert!(has_cargo_toml(&files));
    assert!(!has_cargo_toml(&vec!["bin".to_string()]));
    assert!(has_bin_files(&vec!["detect".to_string(), "build".to_string()]));
    assert!(!has_bin_files(&vec!["detect".to_string()]));
}

#[test]
fn test_resolve_path() {
    assert_eq!(resolve_path("/abs/path", "/base"), "/abs/path");
    assert_eq!(resolve_path("rel/path", "/base"), "/base/rel/path");
    assert_eq!(resolve_path("rel/path", "/base/"), "/base/rel/path");
    assert_eq!(resolve_path("rel/path", ""), "rel/path");
}

#[test]
fn test_list_versions_bullets() {
    let versions = vec!["1.0.0".to_string(), "2.0.0".to_string()];
    assert_eq!(list_versions(&versions), "\u{2022} 1.0.0\n\u{2022} 2.0.0");
}

#[test]
fn test_set_summary_appends_newline() {
    assert_eq!(set_summary("all done"), "all done\n");
}

#[test]
fn test_set_output_single_line() {
    assert_eq!(set_output("is_registered", "true"), "is_registered=true\n");
}

#[test]
fn test_set_output_multiline_uses_heredoc_with_random_delimiter() {
    let line = set_output("changelog", "line one\nline two");
    assert!(line.starts_with("changelog<<"));
    let after = &line["changelog<<".len()..];
    let delimiter = &after[..20];
    assert!(delimiter.chars().all(|c| c.is_ascii_alphanumeric()));
    assert_eq!(
        line,
        format!("changelog<<{delimiter}\nline one\nline two\n{delimiter}\n")
    );
}

#[test]
fn test_version_parse_and_render() {
    assert_eq!(
        Version::parse("1.0.10"),
        Some(Version { major: 1, minor: 0, patch: 10 })
    );
    assert_eq!(Version::parse("01.0.0"), None);
    assert_eq!(Version::parse("1.0"), None);
    assert_eq!(Version { major: 12, minor: 0, patch: 3 }.to_text(), "12.0.3");
    assert!(Version { major: 1, minor: 0, patch: 0 }.le(&Version { major: 1, minor: 0, patch: 1 }));
    assert!(!Version { major: 2, minor: 0, patch: 0 }.le(&Version { major: 1, minor: 9, patch: 9 }));
}

#[test]
fn test_date_validity_and_render() {
    assert_eq!(Date::new(2024, 2, 29), Some(Date { year: 2024, month: 2, day: 29 }));
    assert_eq!(Date::new(2023, 2, 29), None);
    assert_eq!(Date::new(2023, 13, 1), None);
    assert_eq!(Date::new(2023, 1, 5).unwrap().to_text(), "2023-01-05");
}
