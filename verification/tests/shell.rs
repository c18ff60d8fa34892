use sos::sandbox::shell::{conf_cmd, init_cmd, standalone_cmd};

#[test]
fn init_cmd_starts_an_interactive_bash() {
    assert_eq!(init_cmd(), vec!["/bin/bash".to_string(), "-i".to_string()]);
}

#[test]
fn standalone_cmd_wraps_the_command() {
    assert_eq!(
        standalone_cmd("echo hi"),
        vec!["/bin/bash".to_string(), "-c".to_string(), "echo hi".to_string()]
    );
}

#[test]
fn conf_cmd_is_one_line_with_the_markers() {
    let line = conf_cmd("abc");
    assert_eq!(
        line,
        "stty -echo; bind 'set enable-bracketed-paste off'; PS1='#PS1-abc#:$?:'; PS2='#PS2-abc#:'; readonly PS1; readonly PS2; exit() { echo '#EXIT-abc#:'; return 0; }; export -f exit; set -o pipefail; set -o ignoreeof; \n"
    );
}
