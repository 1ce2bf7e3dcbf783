//! Profile loading.

use stemjail::config::get_config;
use stemjail::config::profile::{BindConfig, FsConfig, ProfileConfig, RunConfig};

fn example1_text() -> String {
    [
        "name = \"example1\"",
        "",
        "[[fs.bind]]",
        "path = \"/tmp\"",
        "write = true",
        "",
        "[run]",
        "cmd = [ \"/bin/sh\", \"-c\", \"id\" ]",
        "",
    ].join("\n")
}

fn example2_text() -> String {
    [
        "name = \"example2\"",
        "",
        "[[fs.bind]]",
        "path = \"/run\"",
        "write = true",
        "",
        "[[fs.bind]]",
        "path = \"/tmp\"",
        "write = true",
        "",
        "[run]",
        "cmd = [ \"/usr/bin/setsid\", \"-c\", \"/bin/sh\" ]",
        "",
    ].join("\n")
}

#[test]
fn test_get_config_example1() {
    let c1: ProfileConfig = match get_config(&example1_text()) {
        Ok(c) => c,
        Err(e) => panic!("{}", e.description()),
    };
    let c2 = ProfileConfig {
        name: "example1".to_string(),
        fs: FsConfig {
            bind: Some(vec!(
                BindConfig {
                    path: "/tmp".to_string(),
                    write: Some(true),
                },
            )),
        },
        run: RunConfig {
            cmd: vec!("/bin/sh".to_string(), "-c".to_string(), "id".to_string()),
        },
    };
    assert_eq!(c1, c2);
}

#[test]
fn test_get_config_example2() {
    let c1: ProfileConfig = match get_config(&example2_text()) {
        Ok(c) => c,
        Err(e) => panic!("{}", e.description()),
    };
    let c2 = ProfileConfig {
        name: "example2".to_string(),
        fs: FsConfig {
            bind: Some(vec!(
                BindConfig {
                    path: "/run".to_string(),
                    write: Some(true),
                },
                BindConfig {
                    path: "/tmp".to_string(),
                    write: Some(true),
                },
            )),
        },
        run: RunConfig {
            cmd: vec!("/usr/bin/setsid".to_string(), "-c".to_string(), "/bin/sh".to_string()),
        },
    };
    assert_eq!(c1, c2);
}

#[test]
fn test_relative_bind_path_fails_to_load() {
    let text = [
        "name = \"bad\"",
        "[[fs.bind]]",
        "path = \"relative\"",
        "[run]",
        "cmd = [ \"/bin/sh\" ]",
    ].join("\n");
    assert!(get_config(&text).is_err());
}

#[test]
fn test_bind_without_path_fails_to_load() {
    let text = [
        "name = \"bad\"",
        "[[fs.bind]]",
        "write = true",
        "[run]",
        "cmd = [ \"/bin/sh\" ]",
    ].join("\n");
    assert!(get_config(&text).is_err());
}

#[test]
fn test_missing_name_fails_to_load() {
    let text = ["[run]", "cmd = [ \"/bin/sh\" ]"].join("\n");
    assert!(get_config(&text).is_err());
}

#[test]
fn test_missing_cmd_fails_to_load() {
    let text = "name = \"x\"".to_string();
    assert!(get_config(&text).is_err());
}

#[test]
fn test_profile_without_binds() {
    let text = ["name = \"lean\"", "[run]", "cmd = [ \"/bin/true\" ]"].join("\n");
    let c = get_config(&text).unwrap();
    assert_eq!(c.name, "lean".to_string());
    assert!(c.fs.bind.is_none());
    assert_eq!(c.run.cmd, vec!("/bin/true".to_string()));
}

#[test]
fn test_comments_and_blanks_are_skipped() {
    let text = [
        "# a profile",
        "name = \"c\"",
        "   ",
        "[run]",
        "cmd = [ \"/bin/sh\" ]",
    ].join("\n");
    let c = get_config(&text).unwrap();
    assert_eq!(c.name, "c".to_string());
}
