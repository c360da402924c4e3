use baller::ball_parser::{parse_ball, unquote, DEFAULT_VERSION};

const FULL_BALL: &str = r#"
[COMMAND-NAME]
COMMAND-NAME = "my-tool"

[DESCRIPTION]
DESCRIPTION = "A helpful tool that does X"

[VERSION]
VERSION = "1.0.0"

[FLAGS]
FLAGS-LIST = "-y, --yes, -n, --no"

[AUTHOR]
AUTHOR = "HMythical"

[REQUIRE-ROOT]
ROOTPERMS = false

[DEPENDS]
DEPENDS = "python3, ffmpeg"

[PATH]
PATH = /usr/local/bin/my-tool
"#;

#[test]
fn test_parse_full_manifest() {
    let manifest = parse_ball(FULL_BALL).unwrap();
    assert_eq!(manifest.command_name, "my-tool");
    assert_eq!(manifest.description, "A helpful tool that does X");
    assert_eq!(manifest.version, "1.0.0");
    assert_eq!(manifest.flags, vec!["-y", "--yes", "-n", "--no"]);
    assert_eq!(manifest.author, "HMythical");
    assert!(!manifest.require_root);
    assert_eq!(manifest.depends, vec!["python3", "ffmpeg"]);
    assert_eq!(manifest.path, "/usr/local/bin/my-tool");
}

#[test]
fn test_parse_minimal_manifest_uses_defaults() {
    let content = "[COMMAND-NAME]\nCOMMAND-NAME = tool\n[PATH]\nPATH = /bin/tool\n";
    let manifest = parse_ball(content).unwrap();
    assert_eq!(manifest.command_name, "tool");
    assert_eq!(manifest.version, DEFAULT_VERSION);
    assert_eq!(manifest.description, "");
    assert_eq!(manifest.author, "");
    assert!(!manifest.require_root);
    assert!(manifest.flags.is_empty());
    assert!(manifest.depends.is_empty());
}

#[test]
fn test_parse_missing_command_name() {
    let content = "[PATH]\nPATH = /bin/tool\n";
    let err = parse_ball(content).unwrap_err();
    assert!(err.message().contains("[COMMAND-NAME]"));
}

#[test]
fn test_parse_missing_path() {
    let content = "[COMMAND-NAME]\nCOMMAND-NAME = tool\n";
    let err = parse_ball(content).unwrap_err();
    assert!(err.message().contains("[PATH]"));
}

#[test]
fn test_parse_malformed_line_without_equals() {
    let content = "[FLAGS]\nFLAGS-LIST + \"-y\", \"--yes\"\n";
    let err = parse_ball(content).unwrap_err();
    let msg = err.message();
    assert!(msg.contains("line[2]"));
    assert!(msg.contains("KEY = VALUE"));
}

#[test]
fn test_parse_unknown_section() {
    let content = "[NOT-A-SECTION]\nfoo = bar\n";
    let err = parse_ball(content).unwrap_err();
    assert!(err.message().contains("unknown .ball section"));
}

#[test]
fn test_parse_unknown_key() {
    let content = "[COMMAND-NAME]\nBOGUS = value\n";
    let err = parse_ball(content).unwrap_err();
    assert!(err.message().contains("unknown .ball key"));
}

#[test]
fn test_parse_empty_key() {
    let content = " = value\n";
    let err = parse_ball(content).unwrap_err();
    assert!(err.message().contains("empty key"));
}

#[test]
fn test_parse_empty_required_value() {
    let content = "[COMMAND-NAME]\nCOMMAND-NAME = \"\"\n[PATH]\nPATH = /bin/tool\n";
    let err = parse_ball(content).unwrap_err();
    assert!(err.message().contains("cannot be empty"));
}

#[test]
fn test_parse_comments_and_blank_lines_ignored() {
    let content =
        "# a comment\n\n; another comment\n[COMMAND-NAME]\nCOMMAND-NAME = tool\n[PATH]\nPATH = /bin/tool\n";
    let manifest = parse_ball(content).unwrap();
    assert_eq!(manifest.command_name, "tool");
}

#[test]
fn test_parse_keys_are_case_insensitive() {
    let content = "[command-name]\ncommand-name = tool\n[path]\npath = /bin/tool\n";
    let manifest = parse_ball(content).unwrap();
    assert_eq!(manifest.command_name, "tool");
    assert_eq!(manifest.path, "/bin/tool");
}

#[test]
fn test_parse_root_perms_variants() {
    for (value, expected) in [
        ("true", true),
        ("YES", true),
        ("1", true),
        ("on", true),
        ("false", false),
        ("no", false),
        ("0", false),
        ("OFF", false),
    ] {
        let content = format!(
            "[COMMAND-NAME]\nCOMMAND-NAME = tool\n[REQUIRE-ROOT]\nROOTPERMS = {}\n[PATH]\nPATH = /bin/tool\n",
            value
        );
        let manifest = parse_ball(&content).unwrap();
        assert_eq!(manifest.require_root, expected, "ROOTPERMS = {}", value);
    }
}

#[test]
fn test_parse_invalid_root_perms() {
    let content =
        "[COMMAND-NAME]\nCOMMAND-NAME = tool\n[REQUIRE-ROOT]\nROOTPERMS = maybe\n[PATH]\nPATH = /bin/tool\n";
    let err = parse_ball(content).unwrap_err();
    assert!(err.message().contains("invalid boolean"));
}

#[test]
fn test_parse_flags_with_individually_quoted_entries() {
    let content =
        "[COMMAND-NAME]\nCOMMAND-NAME = tool\n[FLAGS]\nFLAGS-LIST = \"-y\", \"--yes\"\n[PATH]\nPATH = /bin/tool\n";
    let manifest = parse_ball(content).unwrap();
    assert_eq!(manifest.flags, vec!["-y", "--yes"]);
}

#[test]
fn test_parse_empty_optional_lists() {
    let content =
        "[COMMAND-NAME]\nCOMMAND-NAME = tool\n[DEPENDS]\nDEPENDS = \"\"\n[PATH]\nPATH = /bin/tool\n";
    let manifest = parse_ball(content).unwrap();
    assert!(manifest.depends.is_empty());
}

#[test]
fn test_parse_value_containing_equals() {
    let content = "[COMMAND-NAME]\nCOMMAND-NAME = tool\n[DESCRIPTION]\nDESCRIPTION = \"key=value pairs\"\n[PATH]\nPATH = /bin/tool\n";
    let manifest = parse_ball(content).unwrap();
    assert_eq!(manifest.description, "key=value pairs");
}

#[test]
fn test_unquote_helpers() {
    assert_eq!(unquote("  \"quoted\"  "), "quoted");
    assert_eq!(unquote("'single'"), "single");
    assert_eq!(unquote("bare"), "bare");
    assert_eq!(unquote("\"unbalanced"), "\"unbalanced");
}

#[test]
fn test_last_rootperms_entry_decides() {
    let on_then_off =
        "[COMMAND-NAME]\nCOMMAND-NAME = tool\nROOTPERMS = yes\nROOTPERMS = Off\n[PATH]\nPATH = /bin/tool\n";
    assert!(!parse_ball(on_then_off).unwrap().require_root);
    let off_then_on =
        "[COMMAND-NAME]\nCOMMAND-NAME = tool\nROOTPERMS = no\nROOTPERMS = \"ON\"\n[PATH]\nPATH = /bin/tool\n";
    assert!(parse_ball(off_then_on).unwrap().require_root);
    let none = "[COMMAND-NAME]\nCOMMAND-NAME = tool\n[PATH]\nPATH = /bin/tool\n";
    assert!(!parse_ball(none).unwrap().require_root);
}

#[test]
fn test_invalid_rootperms_reported_at_its_line() {
    let content = "[COMMAND-NAME]\nCOMMAND-NAME = tool\nROOTPERMS = maybe\n[PATH]\nPATH = /bin/tool\n";
    let err = parse_ball(content).unwrap_err();
    assert_eq!(
        err.message(),
        "invalid boolean 'maybe' at line[3]: expected true/false, yes/no, 1/0, or on/off"
    );
}
