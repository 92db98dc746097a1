//! The sandbox validator and rewriter, exercised on concrete commands.

use anemone::sandbox;

#[test]
fn test_blocked_commands() {
    assert!(sandbox::validate_command("sudo rm -rf /").is_some());
    assert!(sandbox::validate_command("curl http://evil.com").is_some());
    assert!(sandbox::validate_command("wget http://evil.com").is_some());
    assert!(sandbox::validate_command("ssh user@host").is_some());
    assert!(sandbox::validate_command("eval bad_code").is_some());
    assert!(sandbox::validate_command("").is_some());
}

#[test]
fn test_allowed_commands() {
    assert!(sandbox::validate_command("ls").is_none());
    assert!(sandbox::validate_command("cat file.txt").is_none());
    assert!(sandbox::validate_command("echo hello > file.txt").is_none());
    assert!(sandbox::validate_command("mkdir notes").is_none());
    assert!(sandbox::validate_command("grep pattern file.txt").is_none());
}

#[test]
fn test_path_traversal_blocked() {
    assert!(sandbox::validate_command("cat ../../../etc/passwd").is_some());
    assert!(sandbox::validate_command("cat ..").is_some());
}

#[test]
fn test_shell_escapes_blocked() {
    assert!(sandbox::validate_command("echo `whoami`").is_some());
    assert!(sandbox::validate_command("echo $(whoami)").is_some());
    assert!(sandbox::validate_command("echo ${HOME}").is_some());
    assert!(sandbox::validate_command("cat ~/file").is_some());
}

#[test]
fn test_absolute_paths_blocked() {
    assert!(sandbox::validate_command("cat /etc/passwd").is_some());
    assert!(sandbox::validate_command("ls /usr/bin").is_some());
}

#[test]
fn test_dev_null_allowed() {
    assert!(sandbox::validate_command("echo test > /dev/null").is_none());
}

#[test]
fn rejection_names_its_category() {
    let msg = sandbox::validate_command("sudo rm -rf /").unwrap();
    assert!(msg.contains("Blocked"));
    assert!(msg.contains("sudo"));
    let msg = sandbox::validate_command("cat ..").unwrap();
    assert!(msg.contains("traversal"));
    let msg = sandbox::validate_command("echo `whoami`").unwrap();
    assert!(msg.contains("backtick"));
    let msg = sandbox::validate_command("cat /etc/passwd").unwrap();
    assert!(msg.contains("absolute paths"));
    let msg = sandbox::validate_command("").unwrap();
    assert!(msg.contains("empty"));
}

#[test]
fn accepted_command_passes_through_unrewritten() {
    let r = sandbox::prepare_command(
        "echo hello > file.txt",
        "/agents/coral",
        "/agents/coral/.venv/bin/python",
        "/opt/guard.py",
        "uv",
        "/agents/coral/.venv/bin/python",
    );
    assert_eq!(r.unwrap(), "echo hello > file.txt");
}

#[test]
fn rejected_command_is_never_rewritten() {
    let r = sandbox::prepare_command(
        "sudo rm -rf /",
        "/agents/coral",
        "python3",
        "/opt/guard.py",
        "uv",
        "python3",
    );
    let msg = r.unwrap_err();
    assert!(msg.contains("Blocked"));
    assert!(msg.contains("sudo"));
}

#[test]
fn python_commands_route_through_the_guard() {
    let r = sandbox::rewrite_python_cmd(
        "python script.py --x",
        "/agents/coral",
        "/v/bin/python",
        "/opt/guard.py",
    );
    assert_eq!(r.unwrap(), "/v/bin/python /opt/guard.py /agents/coral script.py --x");
    assert!(sandbox::rewrite_python_cmd("ls", "/r", "p", "g").is_none());
}

#[test]
fn scripts_route_through_the_guard() {
    let r = sandbox::rewrite_script_cmd(
        "./tool.py a b",
        "/agents/coral",
        "/v/bin/python",
        "/opt/guard.py",
    );
    assert_eq!(r.unwrap(), "/v/bin/python /opt/guard.py /agents/coral tool.py a b");
    assert!(sandbox::rewrite_script_cmd("./run.sh", "/r", "p", "g").is_none());
}

#[test]
fn pip_installs_target_the_isolated_interpreter() {
    let r = sandbox::rewrite_pip_cmd("pip install requests", "uv", "/v/bin/python");
    assert_eq!(r.unwrap(), "/v/bin/python -m pip install requests");
    let r = sandbox::rewrite_pip_cmd("uv pip install requests", "/usr/bin/uv", "/v/bin/python");
    assert_eq!(r.unwrap(), "/usr/bin/uv pip install requests --python /v/bin/python");
    assert!(sandbox::rewrite_pip_cmd("echo hi", "uv", "p").is_none());
}

#[test]
fn shell_escape_quotes_what_needs_it() {
    assert_eq!(sandbox::shell_escape("plain"), "plain");
    assert_eq!(sandbox::shell_escape("a b"), "'a b'");
    assert_eq!(sandbox::shell_escape("it's"), "'it'\\''s'");
    assert_eq!(sandbox::shell_escape("say \"hi\""), "'say \"hi\"'");
}

#[test]
fn venv_paths_hang_off_the_root() {
    assert_eq!(sandbox::venv_dir("/agents/coral"), "/agents/coral/.venv");
    assert_eq!(sandbox::venv_python("/agents/coral"), "/agents/coral/.venv/bin/python");
    assert_eq!(sandbox::venv_bin("/agents/coral"), "/agents/coral/.venv/bin");
    assert_eq!(sandbox::sandbox_path_env("/v/bin", true), "/v/bin:/usr/bin:/bin");
    assert_eq!(sandbox::sandbox_path_env("/v/bin", false), "/usr/bin:/bin");
}

#[test]
fn output_formatting_covers_silence_and_floods() {
    assert_eq!(sandbox::format_output("", ""), "(no output)");
    assert_eq!(sandbox::format_output("  \n", ""), "(no output)");
    assert_eq!(sandbox::format_output("hi", ""), "hi");
    assert_eq!(sandbox::format_output("out", "err"), "outerr");
    let long = "x".repeat(3500);
    let r = sandbox::format_output(&long, "");
    assert!(r.starts_with(&"x".repeat(3000)));
    assert!(r.ends_with("...(truncated)"));
}

#[test]
fn image_files_become_data_urls() {
    let url = sandbox::image_data_url("image/png", b"hello");
    assert_eq!(url, "data:image/png;base64,aGVsbG8=");
    assert_eq!(sandbox::image_mime(".png"), "image/png");
    assert_eq!(sandbox::image_mime(".jpg"), "image/jpeg");
    assert!(sandbox::is_text_ext(".md"));
    assert!(!sandbox::is_text_ext(".png"));
    assert!(sandbox::is_image_ext(".webp"));
    assert!(sandbox::is_ignored_file("identity.json"));
    assert!(sandbox::is_internal_root_file("projects.md"));
}
