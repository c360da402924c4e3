use baller::cli::subcommand_names;
use baller::commands::is_reserved;
use baller::help::{
    builtin_commands, find_builtin, format_entry, help_page, render_builtin_detail, render_injected_detail,
    render_overview, HelpPage,
};
use baller::injected::InjectedCommand;

fn sample() -> InjectedCommand {
    InjectedCommand {
        command_name: "my-tool".to_string(),
        description: "A helpful tool that does X".to_string(),
        version: "1.0.0".to_string(),
        flags: vec!["-y".to_string(), "--yes".to_string()],
        author: "HMythical".to_string(),
        require_root: true,
        depends: vec!["python3".to_string()],
        path: "/usr/local/bin/my-tool".to_string(),
    }
}

#[test]
fn test_overview_lists_every_builtin() {
    let overview = render_overview(&vec![]);
    for command in builtin_commands().iter() {
        assert!(overview.contains(command.name), "overview is missing '{}'", command.name);
        assert!(overview.contains(command.summary));
    }
    assert!(overview.contains("Usage:"));
    assert!(overview.contains("Global options:"));
    assert!(overview.contains("--version"));
}

#[test]
fn test_overview_without_injected_commands_hints_at_inject() {
    let overview = render_overview(&vec![]);
    assert!(overview.contains("No injected commands yet"));
    assert!(!overview.contains("Injected commands:"));
}

#[test]
fn test_overview_lists_injected_commands() {
    let overview = render_overview(&vec![sample()]);
    assert!(overview.contains("Injected commands:"));
    assert!(overview.contains("my-tool"));
    assert!(overview.contains("A helpful tool that does X"));
}

#[test]
fn test_overview_falls_back_for_missing_description() {
    let mut command = sample();
    command.description = String::new();
    let overview = render_overview(&vec![command]);
    assert!(overview.contains("no description provided"));
}

#[test]
fn test_overview_columns_align_with_long_injected_name() {
    let mut command = sample();
    command.command_name = "a-very-long-injected-name".to_string();
    let overview = render_overview(&vec![command.copy()]);

    let builtin_line = overview.lines().find(|l| l.trim_start().starts_with("draft")).unwrap();
    let injected_line = overview
        .lines()
        .find(|l| l.trim_start().starts_with(&command.command_name))
        .unwrap();

    assert_eq!(builtin_line.find("Drafts").unwrap(), injected_line.find("A helpful").unwrap());
}

#[test]
fn test_builtin_detail_shows_usage_and_arguments() {
    let detail = render_builtin_detail(&find_builtin("eject").unwrap());
    assert!(detail.contains("eject"));
    assert!(detail.contains("baller eject <PACKAGE_NAME>"));
    assert!(detail.contains("-f, --force"));
    assert!(detail.contains("Frozen packages"));
}

#[test]
fn test_builtin_detail_without_arguments() {
    let detail = render_builtin_detail(&find_builtin("update").unwrap());
    assert!(detail.contains("baller update [PACKAGES...]"));
    assert!(detail.contains("Frozen packages are skipped by default."));
}

#[test]
fn test_injected_detail_shows_every_manifest_field() {
    let detail = render_injected_detail(&sample());
    assert!(detail.contains("my-tool"));
    assert!(detail.contains("A helpful tool that does X"));
    assert!(detail.contains("1.0.0"));
    assert!(detail.contains("HMythical"));
    assert!(detail.contains("-y, --yes"));
    assert!(detail.contains("python3"));
    assert!(detail.contains("Requires root: yes"));
    assert!(detail.contains("/usr/local/bin/my-tool"));
}

#[test]
fn test_injected_detail_omits_empty_fields() {
    let mut command = sample();
    command.author = String::new();
    command.flags = vec![];
    command.depends = vec![];
    command.require_root = false;

    let detail = render_injected_detail(&command);
    assert!(!detail.contains("Author:"));
    assert!(!detail.contains("Flags:"));
    assert!(!detail.contains("Requires:  "));
    assert!(detail.contains("Requires root: no"));
}

#[test]
fn test_every_clap_subcommand_is_documented() {
    for name in subcommand_names() {
        assert!(
            find_builtin(name).is_some(),
            "'{}' is a subcommand but has no entry in BUILTIN_COMMANDS",
            name
        );
    }
}

#[test]
fn test_every_documented_command_is_reserved_from_injection() {
    for command in builtin_commands().iter() {
        assert!(
            is_reserved(command.name),
            "'{}' is documented as built-in but can be injected over",
            command.name
        );
    }
}

#[test]
fn test_builtin_wins_over_injected_command_of_the_same_name() {
    let mut command = sample();
    command.command_name = "draft".to_string();
    match help_page("draft", &vec![command]).unwrap() {
        HelpPage::Builtin(c) => assert!(render_builtin_detail(&c).contains("<PACKAGE_NAME>")),
        HelpPage::Injected(_) => panic!("a built-in must not be shadowed"),
    }
}

#[test]
fn test_help_topic_resolves_injected_and_rejects_unknown() {
    match help_page("my-tool", &vec![sample()]).unwrap() {
        HelpPage::Injected(c) => assert_eq!(c.command_name, "my-tool"),
        HelpPage::Builtin(_) => panic!("expected the injected command"),
    }
    let err = help_page("not-a-command", &vec![sample()]).err().unwrap();
    assert!(format!("{:?}", err).contains("not-a-command"));
}

#[test]
fn test_entry_line_pads_on_the_plain_name() {
    assert_eq!(format_entry("\u{1b}[36mab\u{1b}[0m", "ab", "sum", 5), "  \u{1b}[36mab\u{1b}[0m     sum\n");
    assert_eq!(format_entry("toolong", "toolong", "s", 3), "  toolong  s\n");
}

#[test]
fn test_builtin_detail_has_no_trailing_blank_space() {
    let detail = render_builtin_detail(&find_builtin("version").unwrap());
    assert!(detail.ends_with("baller version"));
}
