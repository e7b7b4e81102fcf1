use codex_core::shell_command::bash::extract_bash_command;
use codex_core::shell_command::bash::extract_bash_command_joined;
use codex_core::shell_command::bash::parse_shell_lc_plain_commands;
use codex_core::shell_command::bash::parse_shell_lc_single_command_prefix;
use codex_core::shell_command::bash::single_command_prefix;
use codex_core::shell_command::bash::try_parse_word_only_commands_sequence;
use codex_core::shell_command::shell_detect::detect_shell_type;
use codex_core::shell_command::shell_detect::ShellType;
use codex_core::shell_command::syntax::node_text;
use codex_core::shell_command::syntax::try_parse_shell;
use codex_core::shell_command::syntax::ShellNode;

fn parse_seq(src: &str) -> Option<Vec<Vec<String>>> {
    let tree = try_parse_shell(src)?;
    try_parse_word_only_commands_sequence(&tree, src)
}

#[test]
fn extract_bash_command_joined_accepts_flattened_argv() {
    let (shell, script) = extract_bash_command_joined(&[
        "zsh".to_string(),
        "-lc".to_string(),
        "touch".to_string(),
        "/tmp/foo".to_string(),
    ])
    .expect("known shell + -lc + tail should match");
    assert_eq!(shell, "zsh");
    assert_eq!(script, "touch /tmp/foo");
}

#[test]
fn extract_bash_command_joined_preserves_shell_operators() {
    let (_, script) = extract_bash_command_joined(&[
        "zsh".to_string(),
        "-lc".to_string(),
        "rg".to_string(),
        "foo bar".to_string(),
        "|".to_string(),
        "head".to_string(),
        ">".to_string(),
        "/tmp/out".to_string(),
        "2>&1".to_string(),
        ";".to_string(),
        "echo".to_string(),
        "done".to_string(),
    ])
    .expect("known shell + -lc + tail should match");
    assert_eq!(script, "rg 'foo bar' | head > /tmp/out 2>&1 ; echo done");
}

#[test]
fn extract_bash_command_joined_preserves_attached_redirections() {
    let (_, script) = extract_bash_command_joined(&[
        "zsh".to_string(),
        "-lc".to_string(),
        "command".to_string(),
        "2>/tmp/stderr".to_string(),
        ">output".to_string(),
        ">>log".to_string(),
        "&>/tmp/all".to_string(),
    ])
    .expect("known shell + -lc + tail should match");
    assert_eq!(script, "command 2>/tmp/stderr >output >>log &>/tmp/all");
}

#[test]
fn extract_bash_command_joined_accepts_absolute_shell_path() {
    let (shell, script) = extract_bash_command_joined(&[
        "/opt/homebrew/bin/zsh".to_string(),
        "-lc".to_string(),
        "touch".to_string(),
        "/tmp/foo".to_string(),
    ])
    .expect("absolute path resolving to zsh should match");
    assert_eq!(shell, "/opt/homebrew/bin/zsh");
    assert_eq!(script, "touch /tmp/foo");
}

#[test]
fn extract_bash_command_joined_handles_three_element_canonical_shape() {
    let (_, script) = extract_bash_command_joined(&[
        "bash".to_string(),
        "-c".to_string(),
        "echo hello".to_string(),
    ])
    .expect("canonical 3-element form should also match");
    assert_eq!(script, "echo hello");
}

#[test]
fn extract_bash_command_joined_rejects_non_shell_first_arg() {
    assert!(
        extract_bash_command_joined(&[
            "python3".to_string(),
            "-c".to_string(),
            "print('hi')".to_string(),
        ])
        .is_none(),
        "python3 -c is not a recognised shell wrapper"
    );
}

#[test]
fn extract_bash_command_joined_rejects_unknown_flag() {
    assert!(
        extract_bash_command_joined(&[
            "bash".to_string(),
            "-x".to_string(),
            "echo hi".to_string(),
        ])
        .is_none(),
        "only -lc and -c are recognised"
    );
}

#[test]
fn extract_bash_command_joined_rejects_empty_tail() {
    assert!(
        extract_bash_command_joined(&["bash".to_string(), "-lc".to_string()]).is_none(),
        "no script tail means nothing to extract"
    );
}

#[test]
fn extract_bash_command_joined_acceptance_tracks_strict_matcher() {
    let cases: &[(&str, &str)] = &[
        ("bash", "-lc"),
        ("bash", "-c"),
        ("zsh", "-lc"),
        ("zsh", "-c"),
        ("sh", "-lc"),
        ("/bin/bash", "-lc"),
        ("/opt/homebrew/bin/zsh", "-lc"),
        ("bash", "-x"),
        ("bash", "-ic"),
        ("bash", "-l"),
        ("python3", "-c"),
        ("fish", "-lc"),
        ("pwsh", "-c"),
    ];
    for &(shell, flag) in cases {
        let three: Vec<String> = vec![shell.into(), flag.into(), "echo hi".into()];
        let four: Vec<String> = vec![shell.into(), flag.into(), "echo".into(), "hi".into()];

        let strict_three = extract_bash_command(&three).is_some();
        let joined_three = extract_bash_command_joined(&three).is_some();
        let joined_four = extract_bash_command_joined(&four).is_some();

        assert_eq!(
            strict_three, joined_three,
            "3-element delegation must agree with strict for ({shell:?}, {flag:?})",
        );
        assert_eq!(
            strict_three, joined_four,
            "4+-element relaxation must accept iff strict accepts for ({shell:?}, {flag:?})",
        );
    }
}

#[test]
fn joined_script_quotes_words_and_names_zero_characters() {
    let (_, script) = extract_bash_command_joined(&[
        "bash".to_string(),
        "-c".to_string(),
        "echo $0".to_string(),
        "foo".to_string(),
    ])
    .expect("joined");
    assert_eq!(script, "'echo $0' foo");
    let (_, script) = extract_bash_command_joined(&[
        "bash".to_string(),
        "-c".to_string(),
        "echo".to_string(),
        "a\0b".to_string(),
    ])
    .expect("joined");
    assert_eq!(script, "<command included NUL byte>");
    let (_, script) = extract_bash_command_joined(&[
        "bash".to_string(),
        "-c".to_string(),
        "echo".to_string(),
        String::new(),
    ])
    .expect("joined");
    assert_eq!(script, "echo ''");
}

#[test]
fn accepts_single_simple_command() {
    let cmds = parse_seq("ls -1").unwrap();
    assert_eq!(cmds, vec![vec!["ls".to_string(), "-1".to_string()]]);
}

#[test]
fn accepts_multiple_commands_with_allowed_operators() {
    let src = "ls && pwd; echo 'hi there' | wc -l";
    let cmds = parse_seq(src).unwrap();
    let expected: Vec<Vec<String>> = vec![
        vec!["ls".to_string()],
        vec!["pwd".to_string()],
        vec!["echo".to_string(), "hi there".to_string()],
        vec!["wc".to_string(), "-l".to_string()],
    ];
    assert_eq!(cmds, expected);
}

#[test]
fn extracts_double_and_single_quoted_strings() {
    let cmds = parse_seq("echo \"hello world\"").unwrap();
    assert_eq!(
        cmds,
        vec![vec!["echo".to_string(), "hello world".to_string()]]
    );

    let cmds2 = parse_seq("echo 'hi there'").unwrap();
    assert_eq!(
        cmds2,
        vec![vec!["echo".to_string(), "hi there".to_string()]]
    );
}

#[test]
fn accepts_double_quoted_strings_with_newlines() {
    let cmds = parse_seq("git commit -m \"line1\nline2\"").unwrap();
    assert_eq!(
        cmds,
        vec![vec![
            "git".to_string(),
            "commit".to_string(),
            "-m".to_string(),
            "line1\nline2".to_string(),
        ]]
    );
}

#[test]
fn accepts_mixed_quote_concatenation() {
    assert_eq!(
        parse_seq(r#"echo "/usr"'/'"local"/bin"#).unwrap(),
        vec![vec!["echo".to_string(), "/usr/local/bin".to_string()]]
    );
    assert_eq!(
        parse_seq(r#"echo '/usr'"/"'local'/bin"#).unwrap(),
        vec![vec!["echo".to_string(), "/usr/local/bin".to_string()]]
    );
}

#[test]
fn rejects_double_quoted_strings_with_expansions() {
    assert!(parse_seq(r#"echo "hi ${USER}""#).is_none());
    assert!(parse_seq(r#"echo "$HOME""#).is_none());
}

#[test]
fn accepts_numbers_as_words() {
    let cmds = parse_seq("echo 123 456").unwrap();
    assert_eq!(
        cmds,
        vec![vec![
            "echo".to_string(),
            "123".to_string(),
            "456".to_string()
        ]]
    );
}

#[test]
fn rejects_parentheses_and_subshells() {
    assert!(parse_seq("(ls)").is_none());
    assert!(parse_seq("ls || (pwd && echo hi)").is_none());
}

#[test]
fn rejects_redirections_and_unsupported_operators() {
    assert!(parse_seq("ls > out.txt").is_none());
    assert!(parse_seq("echo hi & echo bye").is_none());
}

#[test]
fn rejects_command_and_process_substitutions_and_expansions() {
    assert!(parse_seq("echo $(pwd)").is_none());
    assert!(parse_seq("echo `pwd`").is_none());
    assert!(parse_seq("echo $HOME").is_none());
    assert!(parse_seq("echo \"hi $USER\"").is_none());
}

#[test]
fn rejects_variable_assignment_prefix() {
    assert!(parse_seq("FOO=bar ls").is_none());
}

#[test]
fn rejects_trailing_operator_parse_error() {
    assert!(parse_seq("ls &&").is_none());
}

#[test]
fn rejects_empty_command_position_with_leading_operator() {
    assert!(parse_seq("&& ls").is_none());
}

#[test]
fn rejects_empty_command_position_with_double_separator() {
    assert!(parse_seq("ls ;; pwd").is_none());
}

#[test]
fn rejects_empty_command_position_with_empty_pipeline_segment() {
    assert!(parse_seq("ls | | wc").is_none());
}

#[test]
fn parse_zsh_lc_plain_commands() {
    let command = vec!["zsh".to_string(), "-lc".to_string(), "ls".to_string()];
    let parsed = parse_shell_lc_plain_commands(&command).unwrap();
    assert_eq!(parsed, vec![vec!["ls".to_string()]]);
}

#[test]
fn accepts_concatenated_flag_and_value() {
    let cmds = parse_seq("rg -n \"foo\" -g\"*.py\"").unwrap();
    assert_eq!(
        cmds,
        vec![vec![
            "rg".to_string(),
            "-n".to_string(),
            "foo".to_string(),
            "-g*.py".to_string(),
        ]]
    );
}

#[test]
fn accepts_concatenated_flag_with_single_quotes() {
    let cmds = parse_seq("grep -n 'pattern' -g'*.txt'").unwrap();
    assert_eq!(
        cmds,
        vec![vec![
            "grep".to_string(),
            "-n".to_string(),
            "pattern".to_string(),
            "-g*.txt".to_string(),
        ]]
    );
}

#[test]
fn rejects_concatenation_with_variable_substitution() {
    assert!(parse_seq("rg -g\"$VAR\" pattern").is_none());
    assert!(parse_seq("rg -g\"${VAR}\" pattern").is_none());
}

#[test]
fn rejects_concatenation_with_command_substitution() {
    assert!(parse_seq("rg -g\"$(pwd)\" pattern").is_none());
    assert!(parse_seq("rg -g\"$(echo '*.py')\" pattern").is_none());
}

#[test]
fn parse_shell_lc_single_command_prefix_supports_heredoc() {
    let command = vec![
        "zsh".to_string(),
        "-lc".to_string(),
        "python3 <<'PY'\nprint('hello')\nPY".to_string(),
    ];
    let parsed = parse_shell_lc_single_command_prefix(&command);
    assert_eq!(parsed, Some(vec!["python3".to_string()]));

    let command_unquoted = vec![
        "zsh".to_string(),
        "-lc".to_string(),
        "python3 << PY\nprint('hello')\nPY".to_string(),
    ];
    let parsed_unquoted = parse_shell_lc_single_command_prefix(&command_unquoted);
    assert_eq!(parsed_unquoted, Some(vec!["python3".to_string()]));
}

#[test]
fn parse_shell_lc_single_command_prefix_rejects_multi_command_scripts() {
    let command = vec![
        "bash".to_string(),
        "-lc".to_string(),
        "python3 <<'PY'\nprint('hello')\nPY\necho done".to_string(),
    ];
    assert_eq!(parse_shell_lc_single_command_prefix(&command), None);
}

#[test]
fn parse_shell_lc_single_command_prefix_rejects_non_heredoc_redirects() {
    let command = vec![
        "bash".to_string(),
        "-lc".to_string(),
        "echo hello > /tmp/out.txt".to_string(),
    ];
    assert_eq!(parse_shell_lc_single_command_prefix(&command), None);
}

#[test]
fn parse_shell_lc_single_command_prefix_rejects_heredoc_with_extra_file_redirect() {
    let command = vec![
        "bash".to_string(),
        "-lc".to_string(),
        "python3 <<'PY' > /tmp/out.txt\nprint('hello')\nPY".to_string(),
    ];
    assert_eq!(parse_shell_lc_single_command_prefix(&command), None);
}

#[test]
fn parse_shell_lc_single_command_prefix_rejects_heredoc_with_variable_assignment() {
    let command = vec![
        "bash".to_string(),
        "-lc".to_string(),
        "PATH=/tmp/evil:$PATH cat <<'EOF'\nhello\nEOF".to_string(),
    ];
    assert_eq!(parse_shell_lc_single_command_prefix(&command), None);
}

#[test]
fn parse_shell_lc_single_command_prefix_rejects_herestring_with_chaining() {
    let command = vec![
        "bash".to_string(),
        "-lc".to_string(),
        r#"echo hello > /tmp/out.txt && cat /tmp/out.txt"#.to_string(),
    ];
    assert_eq!(parse_shell_lc_single_command_prefix(&command), None);
}

#[test]
fn parse_shell_lc_single_command_prefix_rejects_herestring_with_substitution() {
    let command = vec![
        "bash".to_string(),
        "-lc".to_string(),
        r#"python3 <<< "$(rm -rf /)""#.to_string(),
    ];
    assert_eq!(parse_shell_lc_single_command_prefix(&command), None);
}

#[test]
fn parse_shell_lc_single_command_prefix_rejects_arithmetic_shift_non_heredoc_script() {
    let command = vec![
        "bash".to_string(),
        "-lc".to_string(),
        "echo $((1<<2))".to_string(),
    ];
    assert_eq!(parse_shell_lc_single_command_prefix(&command), None);
}

#[test]
fn parse_shell_lc_single_command_prefix_rejects_heredoc_command_with_word_expansion() {
    let command = vec![
        "bash".to_string(),
        "-lc".to_string(),
        "python3 $((1<<2)) <<'PY'\nprint('hello')\nPY".to_string(),
    ];
    assert_eq!(parse_shell_lc_single_command_prefix(&command), None);
}

fn leaf(kind: &str, start: usize, end: usize) -> ShellNode {
    ShellNode {
        kind: kind.to_string(),
        named: true,
        has_error: false,
        start,
        end,
        children: Vec::new(),
    }
}

fn node(kind: &str, start: usize, end: usize, children: Vec<ShellNode>) -> ShellNode {
    ShellNode { children, ..leaf(kind, start, end) }
}

#[test]
fn commands_of_a_given_tree_come_in_source_order() {
    let src = "b a";
    let first = node(
        "command",
        0,
        1,
        vec![node("command_name", 0, 1, vec![leaf("word", 0, 1)])],
    );
    let second = node(
        "command",
        2,
        3,
        vec![node("command_name", 2, 3, vec![leaf("word", 2, 3)])],
    );
    let root = node("program", 0, 3, vec![second, first]);
    assert_eq!(
        try_parse_word_only_commands_sequence(&root, src),
        Some(vec![vec!["b".to_string()], vec!["a".to_string()]])
    );
    let mut broken = node("program", 0, 0, Vec::new());
    broken.has_error = true;
    assert_eq!(try_parse_word_only_commands_sequence(&broken, src), None);
    let foreign = node("program", 0, 0, vec![leaf("subshell", 0, 0)]);
    assert_eq!(try_parse_word_only_commands_sequence(&foreign, src), None);
    let mut token = leaf("&", 0, 1);
    token.named = false;
    assert_eq!(
        try_parse_word_only_commands_sequence(&node("program", 0, 1, vec![token]), src),
        None
    );
}

#[test]
fn prefix_of_a_given_tree_needs_one_command() {
    let src = "cat <<X";
    let command = node(
        "command",
        0,
        3,
        vec![node("command_name", 0, 3, vec![leaf("word", 0, 3)])],
    );
    let statement = node(
        "redirected_statement",
        0,
        7,
        vec![command, leaf("heredoc_redirect", 4, 7)],
    );
    let root = node("program", 0, 7, vec![statement]);
    assert_eq!(single_command_prefix(&root, src), Some(vec!["cat".to_string()]));
    assert_eq!(single_command_prefix(&node("program", 0, 7, Vec::new()), src), None);
}

#[test]
fn trees_tell_where_their_nodes_stand() {
    let src = "echo h\u{e9}llo";
    let root = try_parse_shell(src).expect("tree");
    assert_eq!(root.kind, "program");
    assert!(root.named);
    assert!(!root.has_error);
    assert_eq!((root.start, root.end), (0, 11));
    assert_eq!(node_text(&root, src), Some(src.to_string()));
    let command = &root.children[0];
    assert_eq!(command.kind, "command");
    assert_eq!(node_text(&command.children[1], src), Some("h\u{e9}llo".to_string()));
    assert_eq!(node_text(&leaf("word", 5, 7), src), None);
    assert_eq!(node_text(&leaf("word", 5, 70), src), None);
    assert!(try_parse_shell("ls &&").expect("tree").has_error);
}

#[test]
fn shells_are_known_by_their_names() {
    assert_eq!(detect_shell_type("zsh"), Some(ShellType::Zsh));
    assert_eq!(detect_shell_type("/bin/bash"), Some(ShellType::Bash));
    assert_eq!(detect_shell_type("/usr/bin/bash.exe"), Some(ShellType::Bash));
    assert_eq!(detect_shell_type("powershell"), Some(ShellType::PowerShell));
    assert_eq!(detect_shell_type("pwsh"), Some(ShellType::PowerShell));
    assert_eq!(detect_shell_type("cmd"), Some(ShellType::Cmd));
    assert_eq!(detect_shell_type("/bin/fish"), None);
    assert_eq!(detect_shell_type(""), None);
}
