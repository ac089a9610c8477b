use vinsly::entries::{
    check_export_destination, ensure_path_in_agents_dir, ensure_path_in_commands_dir,
    ensure_path_in_skills_dir, validate_entry_name, validate_export_destination,
};

#[test]
fn entry_names() {
    assert_eq!(validate_entry_name("formatter"), Ok(()));
    assert_eq!(validate_entry_name("my agent.v2"), Ok(()));
    assert_eq!(validate_entry_name("   "), Err("Agent name cannot be empty".to_string()));
    assert_eq!(validate_entry_name(""), Err("Agent name cannot be empty".to_string()));
    assert_eq!(validate_entry_name("\u{3000}\t"), Err("Agent name cannot be empty".to_string()));
    assert_eq!(validate_entry_name("a/b"), Err("Agent name cannot contain path separators".to_string()));
    assert_eq!(validate_entry_name("a\\b"), Err("Agent name cannot contain path separators".to_string()));
    assert_eq!(validate_entry_name("a..b"), Err("Agent name cannot contain '..'".to_string()));
    assert_eq!(validate_entry_name("a\0b"), Err("Agent name contains invalid characters".to_string()));
}

#[test]
fn paths_under_config_subdirs() {
    let dir = ".cfg";
    assert_eq!(ensure_path_in_agents_dir("/Users/a/.cfg/agents/x.md", dir), Ok(()));
    assert_eq!(ensure_path_in_agents_dir("/Users/a/.cfg/agents", dir), Ok(()));
    assert_eq!(ensure_path_in_skills_dir("C:\\Users\\a\\.cfg\\skills\\s\\SKILL.md", dir), Ok(()));
    assert_eq!(ensure_path_in_commands_dir("/p/.cfg/commands/run.md", dir), Ok(()));
    assert_eq!(
        ensure_path_in_agents_dir("/Users/a/.cfg/agentsx/y.md", dir),
        Err("Refusing to modify files outside .cfg/agents".to_string())
    );
    assert_eq!(
        ensure_path_in_agents_dir("/Users/a/x.cfg/agents/y.md", dir),
        Err("Refusing to modify files outside .cfg/agents".to_string())
    );
    assert_eq!(
        ensure_path_in_skills_dir("/p/.cfg/skills/../../etc", dir),
        Err("Refusing to modify files outside .cfg/skills".to_string())
    );
    assert_eq!(
        ensure_path_in_commands_dir("/tmp/run.md", dir),
        Err("Refusing to modify files outside .cfg/commands".to_string())
    );
}

#[test]
fn export_destinations() {
    assert_eq!(validate_export_destination("/home/u/out.zip"), Ok(()));
    assert_eq!(
        validate_export_destination("out.zip"),
        Err("Destination must be absolute path".to_string())
    );
    assert_eq!(
        validate_export_destination("/etc/passwd"),
        Err("Cannot export to system directory: /etc".to_string())
    );
    assert_eq!(
        validate_export_destination("/private/var/x"),
        Err("Cannot export to system directory: /private/var".to_string())
    );
    assert_eq!(
        validate_export_destination("/Library/x"),
        Err("Cannot export to system directory: /Library".to_string())
    );
}

#[test]
fn windows_export_destinations() {
    assert_eq!(
        check_export_destination("C:\\Windows\\System32\\x", true, "c:\\windows\\system32\\x"),
        Err("Cannot export to system directory: c:\\windows\\".to_string())
    );
    assert_eq!(
        check_export_destination("C:/Program Files/x", true, "c:/program files/x"),
        Err("Cannot export to system directory: c:\\program files\\".to_string())
    );
    assert_eq!(check_export_destination("D:\\out.zip", true, "d:\\out.zip"), Ok(()));
    assert_eq!(
        check_export_destination("D:\\out.zip", false, "d:\\out.zip"),
        Err("Destination must be absolute path".to_string())
    );
}
