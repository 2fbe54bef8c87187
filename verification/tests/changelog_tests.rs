use buildpack_actions::changelog::{Changelog, ChangelogError};
use buildpack_actions::date::Date;
use buildpack_actions::links::generate_release_declarations;
use buildpack_actions::version::Version;

#[test]
fn test_keep_a_changelog_unreleased_entry_with_changes_parsing() {
    let changelog = Changelog::try_from("## [Unreleased]\n\n- Some changes").unwrap();
    assert_eq!(changelog.unreleased, Some("- Some changes".to_string()));
}

#[test]
fn test_blank_release_0_5_5_entry_from_jvm_repo() {
    let changelog = Changelog::try_from(
        "## [Unreleased]

## [0.6.0] 2022/01/05

- Switch to BSD 3-Clause License
- Upgrade to libcnb version 0.4.0
- Updated function runtime to 1.0.5

## [0.5.5] 2021/10/19

## [0.5.4] 2021/09/30

- Updated function runtime to 1.0.3",
    )
    .unwrap();
    assert_eq!(changelog.releases.get("0.5.5").unwrap().body, "");
    assert_eq!(
        changelog.to_text(),
        "# Changelog

All notable changes to this project will be documented in this file.

The format is based on [Keep a Changelog](https://keepachangelog.com/en/1.0.0/),
and this project adheres to [Semantic Versioning](https://semver.org/spec/v2.0.0.html).

## [Unreleased]

## [0.6.0] - 2022-01-05

- Switch to BSD 3-Clause License
- Upgrade to libcnb version 0.4.0
- Updated function runtime to 1.0.5

## [0.5.5] - 2021-10-19

## [0.5.4] - 2021-09-30

- Updated function runtime to 1.0.3
"
    )
}

#[test]
fn test_keep_a_changelog_unreleased_entry_with_no_changes_parsing() {
    let changelog = Changelog::try_from(KEEP_A_CHANGELOG_1_0_0).unwrap();
    assert_eq!(changelog.unreleased, None);
}

#[test]
fn test_keep_a_changelog_release_entry_parsing() {
    let changelog = Changelog::try_from(KEEP_A_CHANGELOG_1_0_0).unwrap();
    let release_entry = changelog.releases.get("1.1.1").unwrap();
    assert_eq!(release_entry.version, Version::parse("1.1.1").unwrap());
    assert_eq!(
        release_entry.date,
        Date {
            year: 2023,
            month: 3,
            day: 5
        }
    );
    assert_eq!(
        release_entry.body,
        r#"### Added

- Arabic translation (#444).
- v1.1 French translation.
- v1.1 Dutch translation (#371).
- v1.1 Russian translation (#410).
- v1.1 Japanese translation (#363).
- v1.1 Norwegian Bokmål translation (#383).
- v1.1 "Inconsistent Changes" Turkish translation (#347).
- Default to most recent versions available for each languages
- Display count of available translations (26 to date!)
- Centralize all links into `/data/links.json` so they can be updated easily

### Fixed

- Improve French translation (#377).
- Improve id-ID translation (#416).
- Improve Persian translation (#457).
- Improve Russian translation (#408).
- Improve Swedish title (#419).
- Improve zh-CN translation (#359).
- Improve French translation (#357).
- Improve zh-TW translation (#360, #355).
- Improve Spanish (es-ES) transltion (#362).
- Foldout menu in Dutch translation (#371).
- Missing periods at the end of each change (#451).
- Fix missing logo in 1.1 pages
- Display notice when translation isn't for most recent version
- Various broken links, page versions, and indentations.

### Changed

- Upgrade dependencies: Ruby 3.2.1, Middleman, etc.

### Removed

- Unused normalize.css file
- Identical links assigned in each translation file
- Duplicate index file for the english version"#
    );
}

#[test]
fn test_release_entry_parsing_with_alternate_date_format() {
    let changelog = Changelog::try_from(
        "## [Unreleased]\n\n## [1.0.10] 2023/05/10\n- Upgrade libcnb to 0.12.0",
    )
    .unwrap();
    let release_entry = changelog.releases.get("1.0.10").unwrap();
    assert_eq!(release_entry.version, Version::parse("1.0.10").unwrap());
    assert_eq!(
        release_entry.date,
        Date {
            year: 2023,
            month: 5,
            day: 10
        }
    );
    assert_eq!(release_entry.body, "- Upgrade libcnb to 0.12.0");
}

#[test]
fn test_keep_a_changelog_parses_all_release_entries() {
    let changelog = Changelog::try_from(KEEP_A_CHANGELOG_1_0_0).unwrap();
    let releases = changelog.releases.keys().collect::<Vec<_>>();
    assert_eq!(
        releases,
        vec![
            "1.1.1", "1.1.0", "1.0.0", "0.3.0", "0.2.0", "0.1.0", "0.0.8", "0.0.7", "0.0.6",
            "0.0.5", "0.0.4", "0.0.3", "0.0.2", "0.0.1",
        ]
    );
}

#[test]
fn test_keep_a_changelog_to_string() {
    let changelog = Changelog::try_from(KEEP_A_CHANGELOG_1_0_0).unwrap();
    assert_eq!(changelog.to_text(), KEEP_A_CHANGELOG_1_0_0);
}

#[test]
fn test_generate_release_declarations() {
    let changelog = Changelog::try_from(KEEP_A_CHANGELOG_1_0_0).unwrap();
    let declarations = generate_release_declarations(
        &changelog,
        "https://github.com/olivierlacan/keep-a-changelog",
        &None,
    );
    assert_eq!(
        declarations,
        r#"[unreleased]: https://github.com/olivierlacan/keep-a-changelog/compare/v1.1.1...HEAD
[1.1.1]: https://github.com/olivierlacan/keep-a-changelog/compare/v1.1.0...v1.1.1
[1.1.0]: https://github.com/olivierlacan/keep-a-changelog/compare/v1.0.0...v1.1.0
[1.0.0]: https://github.com/olivierlacan/keep-a-changelog/compare/v0.3.0...v1.0.0
[0.3.0]: https://github.com/olivierlacan/keep-a-changelog/compare/v0.2.0...v0.3.0
[0.2.0]: https://github.com/olivierlacan/keep-a-changelog/compare/v0.1.0...v0.2.0
[0.1.0]: https://github.com/olivierlacan/keep-a-changelog/compare/v0.0.8...v0.1.0
[0.0.8]: https://github.com/olivierlacan/keep-a-changelog/compare/v0.0.7...v0.0.8
[0.0.7]: https://github.com/olivierlacan/keep-a-changelog/compare/v0.0.6...v0.0.7
[0.0.6]: https://github.com/olivierlacan/keep-a-changelog/compare/v0.0.5...v0.0.6
[0.0.5]: https://github.com/olivierlacan/keep-a-changelog/compare/v0.0.4...v0.0.5
[0.0.4]: https://github.com/olivierlacan/keep-a-changelog/compare/v0.0.3...v0.0.4
[0.0.3]: https://github.com/olivierlacan/keep-a-changelog/compare/v0.0.2...v0.0.3
[0.0.2]: https://github.com/olivierlacan/keep-a-changelog/compare/v0.0.1...v0.0.2
[0.0.1]: https://github.com/olivierlacan/keep-a-changelog/releases/tag/v0.0.1"#
    );
}

#[test]
fn test_generate_release_declarations_with_no_releases() {
    let changelog = Changelog::try_from("[Unreleased]").unwrap();
    let declarations = generate_release_declarations(
        &changelog,
        "https://github.com/olivierlacan/keep-a-changelog",
        &None,
    );
    assert_eq!(
        declarations,
        "[unreleased]: https://github.com/olivierlacan/keep-a-changelog"
    );
}

#[test]
fn test_generate_release_declarations_with_only_one_release() {
    let changelog = Changelog::try_from("[Unreleased]\n## [0.0.1] - 2023-03-05\n\n- Some change\n")
        .unwrap();
    let declarations = generate_release_declarations(
        &changelog,
        "https://github.com/olivierlacan/keep-a-changelog",
        &None,
    );
    assert_eq!(
        declarations,
        "[unreleased]: https://github.com/olivierlacan/keep-a-changelog/compare/v0.0.1...HEAD\n[0.0.1]: https://github.com/olivierlacan/keep-a-changelog/releases/tag/v0.0.1"
    );
}

#[test]
fn test_generate_release_declarations_starting_with_release() {
    let changelog = Changelog::try_from(KEEP_A_CHANGELOG_1_0_0).unwrap();
    let declarations = generate_release_declarations(
        &changelog,
        "https://github.com/olivierlacan/keep-a-changelog",
        &Some(Version {
            major: 1,
            minor: 0,
            patch: 0,
        }),
    );
    assert_eq!(
        declarations,
        r#"[unreleased]: https://github.com/olivierlacan/keep-a-changelog/compare/v1.1.1...HEAD
[1.1.1]: https://github.com/olivierlacan/keep-a-changelog/compare/v1.1.0...v1.1.1
[1.1.0]: https://github.com/olivierlacan/keep-a-changelog/compare/v1.0.0...v1.1.0
[1.0.0]: https://github.com/olivierlacan/keep-a-changelog/releases/tag/v1.0.0"#
    );
}

#[test]
fn test_round_trip_is_idempotent_on_short_document() {
    let text = "# Changelog

All notable changes to this project will be documented in this file.

The format is based on [Keep a Changelog](https://keepachangelog.com/en/1.0.0/),
and this project adheres to [Semantic Versioning](https://semver.org/spec/v2.0.0.html).

## [Unreleased]

- Pending change

## [2.0.0] - 2024-02-29

### Added

- Leap day release

## [1.9.3] - 2023-12-01
";
    let once = Changelog::try_from(text).unwrap().to_text();
    assert_eq!(once, text);
    let twice = Changelog::try_from(&once).unwrap().to_text();
    assert_eq!(twice, once);
}

#[test]
fn test_both_date_separators_parse_to_the_same_date() {
    let dashed = Changelog::try_from("## [1.2.3] - 2023-05-10\n\n- x").unwrap();
    let slashed = Changelog::try_from("## [1.2.3] - 2023/05/10\n\n- x").unwrap();
    assert_eq!(
        dashed.releases.get("1.2.3").unwrap().date,
        slashed.releases.get("1.2.3").unwrap().date
    );
    assert_eq!(
        dashed.releases.get("1.2.3").unwrap().date,
        Date {
            year: 2023,
            month: 5,
            day: 10
        }
    );
}

#[test]
fn test_version_with_leading_zero_is_rejected() {
    let result = Changelog::try_from("## [01.0.0] - 2023-05-10\n\n- x");
    assert_eq!(
        result.unwrap_err(),
        ChangelogError::ParseVersion("01.0.0".to_string())
    );
}

#[test]
fn test_nonexistent_calendar_date_is_rejected() {
    let result = Changelog::try_from("## [1.0.0] - 2023-02-29\n\n- x");
    assert_eq!(result.unwrap_err(), ChangelogError::InvalidReleaseDate);
    let result = Changelog::try_from("## [1.0.0] - 2023-13-05\n\n- x");
    assert_eq!(result.unwrap_err(), ChangelogError::InvalidReleaseDate);
}

#[test]
fn test_non_release_headings_are_ignored() {
    let changelog = Changelog::try_from(
        "## [Unreleased]\n\n- pending\n\n## Notes\n\nnot a release\n\n## [1.0.0] - 2023-05-10\n\n- x",
    )
    .unwrap();
    assert_eq!(changelog.unreleased, Some("- pending".to_string()));
    let keys = changelog.releases.keys().collect::<Vec<_>>();
    assert_eq!(keys, vec!["1.0.0"]);
}

#[test]
fn test_duplicate_release_heading_keeps_place_and_takes_last_entry() {
    let changelog = Changelog::try_from(
        "## [1.0.0] - 2023-05-10\n\n- first\n\n## [0.9.0] - 2023-04-01\n\n- old\n\n## [1.0.0] - 2023-05-10\n\n- second",
    )
    .unwrap();
    let keys = changelog.releases.keys().collect::<Vec<_>>();
    assert_eq!(keys, vec!["1.0.0", "0.9.0"]);
}

#[test]
fn test_unicode_whitespace_is_trimmed_from_bodies() {
    let changelog =
        Changelog::try_from("## [Unreleased]\n\n- padded change\u{a0}\u{a0}").unwrap();
    assert_eq!(changelog.unreleased, Some("- padded change".to_string()));
}

#[test]
fn test_error_messages() {
    assert_eq!(
        ChangelogError::InvalidReleaseDate.message(),
        "Invalid date in release entry"
    );
    assert_eq!(
        ChangelogError::ParseVersion("01.2.3".to_string()).message(),
        "Invalid semver version in release entry - 01.2.3"
    );
    assert_eq!(
        ChangelogError::NoRootNode.message(),
        "No root node in changelog markdown"
    );
}

const KEEP_A_CHANGELOG_1_0_0: &str = r#"# Changelog

All notable changes to this project will be documented in this file.

The format is based on [Keep a Changelog](https://keepachangelog.com/en/1.0.0/),
and this project adheres to [Semantic Versioning](https://semver.org/spec/v2.0.0.html).

## [Unreleased]

## [1.1.1] - 2023-03-05

### Added

- Arabic translation (#444).
- v1.1 French translation.
- v1.1 Dutch translation (#371).
- v1.1 Russian translation (#410).
- v1.1 Japanese translation (#363).
- v1.1 Norwegian Bokmål translation (#383).
- v1.1 "Inconsistent Changes" Turkish translation (#347).
- Default to most recent versions available for each languages
- Display count of available translations (26 to date!)
- Centralize all links into `/data/links.json` so they can be updated easily

### Fixed

- Improve French translation (#377).
- Improve id-ID translation (#416).
- Improve Persian translation (#457).
- Improve Russian translation (#408).
- Improve Swedish title (#419).
- Improve zh-CN translation (#359).
- Improve French translation (#357).
- Improve zh-TW translation (#360, #355).
- Improve Spanish (es-ES) transltion (#362).
- Foldout menu in Dutch translation (#371).
- Missing periods at the end of each change (#451).
- Fix missing logo in 1.1 pages
- Display notice when translation isn't for most recent version
- Various broken links, page versions, and indentations.

### Changed

- Upgrade dependencies: Ruby 3.2.1, Middleman, etc.

### Removed

- Unused normalize.css file
- Identical links assigned in each translation file
- Duplicate index file for the english version

## [1.1.0] - 2019-02-15

### Added

- Danish translation (#297).
- Georgian translation (#337).
- Changelog inconsistency section in Bad Practices.

### Fixed

- Italian translation (#332).
- Indonesian translation (#336).

## [1.0.0] - 2017-06-20

### Added

- New visual identity by [@tylerfortune8](https://github.com/tylerfortune8).
- Version navigation.
- Links to latest released version in previous versions.
- "Why keep a changelog?" section.
- "Who needs a changelog?" section.
- "How do I make a changelog?" section.
- "Frequently Asked Questions" section.
- New "Guiding Principles" sub-section to "How do I make a changelog?".
- Simplified and Traditional Chinese translations [@tianshuo](https://github.com/tianshuo).
- German translation [@mpbzh](https://github.com/mpbzh) & [@Art4](https://github.com/Art4).
- Italian translation [@azkidenz](https://github.com/azkidenz).
- Swedish translation [@magol](https://github.com/magol).
- Turkish translation [@emreerkan](https://github.com/emreerkan).
- French translation [@zapashcanon](https://github.com/zapashcanon).
- Brazilian Portuguese translation [@Webysther](https://github.com/Webysther).
- Polish translation [@amielucha](https://github.com/amielucha) & [@m-aciek](https://github.com/m-aciek).
- Russian translation [@aishek](https://github.com/aishek).
- Czech translation [@h4vry](https://github.com/h4vry).
- Slovak translation [@jkostolansky](https://github.com/jkostolansky).
- Korean translation [@pierceh89](https://github.com/pierceh89).
- Croatian translation [@porx](https://github.com/porx).
- Persian translation [@Hameds](https://github.com/Hameds).
- Ukrainian translation [@osadchyi-s](https://github.com/osadchyi-s).

### Changed

- Start using "changelog" over "change log" since it's the common usage.
- Start versioning based on the current English version at 0.3.0 to help
  translation authors keep things up-to-date.
- Rewrite "What makes unicorns cry?" section.
- Rewrite "Ignoring Deprecations" sub-section to clarify the ideal
  scenario.
- Improve "Commit log diffs" sub-section to further argument against
  them.
- Merge "Why can’t people just use a git log diff?" with "Commit log
  diffs".
- Fix typos in Simplified Chinese and Traditional Chinese translations.
- Fix typos in Brazilian Portuguese translation.
- Fix typos in Turkish translation.
- Fix typos in Czech translation.
- Fix typos in Swedish translation.
- Improve phrasing in French translation.
- Fix phrasing and spelling in German translation.

### Removed

- Section about "changelog" vs "CHANGELOG".

## [0.3.0] - 2015-12-03

### Added

- RU translation [@aishek](https://github.com/aishek).
- pt-BR translation [@tallesl](https://github.com/tallesl).
- es-ES translation [@ZeliosAriex](https://github.com/ZeliosAriex).

## [0.2.0] - 2015-10-06

### Changed

- Remove exclusionary mentions of "open source" since this project can
  benefit both "open" and "closed" source projects equally.

## [0.1.0] - 2015-10-06

### Added

- Answer "Should you ever rewrite a change log?".

### Changed

- Improve argument against commit logs.
- Start following [SemVer](https://semver.org) properly.

## [0.0.8] - 2015-02-17

### Changed

- Update year to match in every README example.
- Reluctantly stop making fun of Brits only, since most of the world
  writes dates in a strange way.

### Fixed

- Fix typos in recent README changes.
- Update outdated unreleased diff link.

## [0.0.7] - 2015-02-16

### Added

- Link, and make it obvious that date format is ISO 8601.

### Changed

- Clarified the section on "Is there a standard change log format?".

### Fixed

- Fix Markdown links to tag comparison URL with footnote-style links.

## [0.0.6] - 2014-12-12

### Added

- README section on "yanked" releases.

## [0.0.5] - 2014-08-09

### Added

- Markdown links to version tags on release headings.
- Unreleased section to gather unreleased changes and encourage note
  keeping prior to releases.

## [0.0.4] - 2014-08-09

### Added

- Better explanation of the difference between the file ("CHANGELOG")
  and its function "the change log".

### Changed

- Refer to a "change log" instead of a "CHANGELOG" throughout the site
  to differentiate between the file and the purpose of the file — the
  logging of changes.

### Removed

- Remove empty sections from CHANGELOG, they occupy too much space and
  create too much noise in the file. People will have to assume that the
  missing sections were intentionally left out because they contained no
  notable changes.

## [0.0.3] - 2014-08-09

### Added

- "Why should I care?" section mentioning The Changelog podcast.

## [0.0.2] - 2014-07-10

### Added

- Explanation of the recommended reverse chronological release ordering.

## [0.0.1] - 2014-05-31

### Added

- This CHANGELOG file to hopefully serve as an evolving example of a
  standardized open source project CHANGELOG.
- CNAME file to enable GitHub Pages custom domain.
- README now contains answers to common questions about CHANGELOGs.
- Good examples and basic guidelines, including proper date formatting.
- Counter-examples: "What makes unicorns cry?".
"#;
