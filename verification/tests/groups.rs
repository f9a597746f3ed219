use octosync::cli;
use octosync::groups::{
    is_valid_name_charset, mapped_slugs, teams_to_fetch, validate_group_name, validate_team_slug,
    GroupAssignments, GroupMapping, TeamMembers,
};
use octosync::names::NameSet;

fn set(names: &[&str]) -> NameSet {
    let mut r = NameSet::new();
    for name in names {
        r.insert(name.to_string());
    }
    r
}

#[test]
fn groups_valid_groups() {
    let groups = vec![
        "developers".to_string(),
        "team_alpha".to_string(),
        "ops-team".to_string(),
        "group123".to_string(),
    ];
    let result = groups
        .iter()
        .map(|group| validate_group_name(group))
        .collect::<Result<Vec<_>, _>>()
        .unwrap();
    assert_eq!(result.len(), 4);
    assert_eq!(result, groups);
}

#[test]
fn groups_invalid_groups() {
    let groups = vec![
        "invalid group".to_string(),
        "toolonggroupname_exceeding_32_characters".to_string(),
        "invalid,comma".to_string(),
        "invalid$char".to_string(),
        "-foobar".to_string(),
        "foo-".to_string(),
        "Developers".to_string(),
        "1group".to_string(),
        "".to_string(),
    ];

    for group in groups {
        let result = validate_group_name(&group);
        assert!(
            result.is_err(),
            "Expected group '{}' to be invalid, but it was accepted",
            group
        );
    }
}

#[test]
fn group_name_length_limit() {
    let longest = "a".repeat(32);
    assert_eq!(validate_group_name(&longest).unwrap(), longest);
    assert!(validate_group_name(&"a".repeat(33)).is_err());
    assert_eq!(validate_group_name("_x").unwrap(), "_x");
}

#[test]
fn invalid_group_message_names_the_group() {
    let refusal = validate_group_name("Developers").unwrap_err();
    assert_eq!(
        refusal.message(),
        "Invalid group name 'Developers'. Group names must match [a-z_][a-z0-9_-]*, not end with \
         '-' and be at most 32 characters long."
    );
}

#[test]
fn invalid_slug_message_names_the_slug() {
    let refusal = validate_team_slug("Backend Team").unwrap_err();
    assert_eq!(
        refusal.message(),
        "Invalid GitHub team slug 'Backend Team'. Use the team slug (lowercase letters, digits, \
         '-' and '_'), not the team name."
    );
}

#[test]
fn name_charset() {
    assert!(is_valid_name_charset("a-b_0"));
    assert!(!is_valid_name_charset(""));
    assert!(!is_valid_name_charset("ä"));
}

#[test]
fn valid_slugs() {
    for slug in ["backend", "ops-team", "team_2", "a"] {
        assert!(
            validate_team_slug(slug).is_ok(),
            "Expected slug '{}' to be valid, but it was rejected",
            slug
        );
    }
}

#[test]
fn invalid_slugs() {
    for slug in ["Backend Team", "Backend", "team/x", "", "a..b", "team?x"] {
        assert!(
            validate_team_slug(slug).is_err(),
            "Expected slug '{}' to be invalid, but it was accepted",
            slug
        );
    }
}

#[test]
fn plain_group_is_add_group() {
    let mapping = GroupMapping::from_str("developers").unwrap();
    assert_eq!(mapping, GroupMapping::AddGroup("developers".to_string()));
}

#[test]
fn team_mapping_is_parsed() {
    let mapping = GroupMapping::from_str("gh-team:linux-group").unwrap();
    assert_eq!(
        mapping,
        GroupMapping::MapGitHubTeam {
            gh_team: "gh-team".to_string(),
            linux_group: "linux-group".to_string(),
        }
    );
}

#[test]
fn empty_team_slug_is_rejected() {
    assert!(GroupMapping::from_str(":linux-group").is_err());
}

#[test]
fn team_name_instead_of_slug_is_rejected() {
    assert!(GroupMapping::from_str("Backend Team:linux-group").is_err());
}

#[test]
fn invalid_linux_group_in_mapping_is_rejected() {
    assert!(GroupMapping::from_str("gh-team:invalid group").is_err());
    assert!(GroupMapping::from_str("gh-team:").is_err());
}

#[test]
fn second_colon_belongs_to_the_group() {
    let refusal = GroupMapping::from_str("gh-team:a:b").unwrap_err();
    assert!(refusal.message().contains("'a:b'"));
}

fn add(group: &str) -> GroupMapping {
    GroupMapping::AddGroup(group.to_string())
}

fn map(gh_team: &str, linux_group: &str) -> GroupMapping {
    GroupMapping::MapGitHubTeam {
        gh_team: gh_team.to_string(),
        linux_group: linux_group.to_string(),
    }
}

fn teams(entries: &[(&str, &[u64])]) -> TeamMembers {
    let mut r = TeamMembers::new();
    for (team, ids) in entries {
        r.insert(team.to_string(), ids.to_vec());
    }
    r
}

#[test]
fn global_groups_apply_to_every_user() {
    let assignments =
        GroupAssignments::from_mappings(&vec![add("developers"), add("ops")], &teams(&[]));

    assert_eq!(assignments.all_groups(), vec!["developers", "ops"]);
    assert_eq!(assignments.user_groups(1), vec!["developers", "ops"]);
}

#[test]
fn team_members_get_the_mapped_group() {
    let assignments = GroupAssignments::from_mappings(
        &vec![map("backend", "backend-devs")],
        &teams(&[("backend", &[1, 2])]),
    );

    assert_eq!(assignments.all_groups(), vec!["backend-devs"]);
    assert_eq!(assignments.user_groups(1), vec!["backend-devs"]);
    assert!(assignments.user_groups(3).is_empty());
}

/// A mapping whose GitHub team does not exist must neither create the Linux group nor assign it
/// to any user.
#[test]
fn missing_team_is_skipped_entirely() {
    let assignments = GroupAssignments::from_mappings(
        &vec![map("no-such-team", "ghosts"), add("developers")],
        &teams(&[]),
    );

    assert_eq!(assignments.all_groups(), vec!["developers"]);
    assert_eq!(assignments.user_groups(1), vec!["developers"]);
}

#[test]
fn existing_team_without_members_still_creates_the_group() {
    let assignments = GroupAssignments::from_mappings(
        &vec![map("backend", "backend-devs")],
        &teams(&[("backend", &[])]),
    );

    assert_eq!(assignments.all_groups(), vec!["backend-devs"]);
    assert!(assignments.user_groups(1).is_empty());
}

#[test]
fn user_in_multiple_teams_gets_all_mapped_groups() {
    let assignments = GroupAssignments::from_mappings(
        &vec![
            add("developers"),
            map("backend", "backend-devs"),
            map("ops", "ops-team"),
        ],
        &teams(&[("backend", &[1]), ("ops", &[1, 2])]),
    );

    assert_eq!(
        assignments.all_groups(),
        vec!["backend-devs", "developers", "ops-team"]
    );
    assert_eq!(
        assignments.user_groups(1),
        vec!["backend-devs", "developers", "ops-team"]
    );
    assert_eq!(assignments.user_groups(2), vec!["developers", "ops-team"]);
}

#[test]
fn duplicate_groups_are_deduplicated() {
    let assignments = GroupAssignments::from_mappings(
        &vec![add("devs"), map("backend", "devs"), map("frontend", "devs")],
        &teams(&[("backend", &[1]), ("frontend", &[1])]),
    );

    assert_eq!(assignments.all_groups(), vec!["devs"]);
    assert_eq!(assignments.user_groups(1), vec!["devs"]);
}

#[test]
fn no_mappings_assign_nothing() {
    let assignments = GroupAssignments::default();
    assert!(assignments.all_groups().is_empty());
    assert!(assignments.user_groups(1).is_empty());
}

/// Every group a user gets is among those that are created.
#[test]
fn assigned_groups_are_among_the_created_ones() {
    let assignments = GroupAssignments::from_mappings(
        &vec![add("developers"), map("backend", "backend-devs"), map("gone", "ghosts")],
        &teams(&[("backend", &[7])]),
    );
    let all = assignments.all_groups();
    for group in assignments.user_groups(7) {
        assert!(all.contains(&group));
    }
}

#[test]
fn only_mapped_teams_that_exist_are_fetched() {
    let mapped = mapped_slugs(&vec![
        map("ops", "ops-team"),
        add("developers"),
        map("backend", "backend-devs"),
        map("ops", "all"),
        map("gone", "ghosts"),
    ]);
    assert_eq!(mapped.to_list(), vec!["backend", "gone", "ops"]);
    assert_eq!(
        teams_to_fetch(&mapped, &set(&["ops", "other", "backend"])),
        vec!["backend", "ops"]
    );
}

#[test]
fn a_team_listed_twice_counts_with_its_last_members() {
    let listed = teams(&[("ops", &[1]), ("ops", &[2])]);
    assert_eq!(listed.get("ops"), Some(&vec![2]));
    assert_eq!(listed.get("backend"), None);
}

#[test]
fn main_valid_groups() {
    let groups = vec![
        "developers".to_string(),
        "team_alpha".to_string(),
        "ops-team".to_string(),
        "group123".to_string(),
    ];
    let result = groups
        .iter()
        .map(|group| cli::validate_group_name(group))
        .collect::<Result<Vec<_>, _>>()
        .unwrap();
    assert_eq!(result.len(), 4);
    assert_eq!(result, groups);
}

#[test]
fn main_invalid_groups() {
    let groups = vec![
        "invalid group".to_string(),
        "toolonggroupname_exceeding_32_characters".to_string(),
        "invalid,comma".to_string(),
        "invalid$char".to_string(),
        "-foobar".to_string(),
        "foo-".to_string(),
    ];

    for group in groups {
        let result = cli::validate_group_name(&group);
        assert!(
            result.is_err(),
            "Expected group '{}' to be invalid, but it was accepted",
            group
        );
    }
}

#[test]
fn wider_group_names_allow_capitals_and_leading_digits() {
    assert_eq!(cli::validate_group_name("1Group").unwrap(), "1Group");
    assert!(validate_group_name("1Group").is_err());
    assert!(cli::validate_group_name("").is_err());
    assert_eq!(
        cli::validate_group_name("a b").unwrap_err().message(),
        "Invalid  group name 'a b'. Allowed characters: [A-Za-z0-9_-], max length 32."
    );
}
