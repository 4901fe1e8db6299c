use cade::{
    config_check_args, config_check_outcome, compose_program, load_config, plan_after_config,
    render_config, staging_path, stderr_tail, up_args, Error, ProcessResult,
};

fn outcome(exit_code: i32, stderr: &str) -> ProcessResult {
    ProcessResult { exit_code, stdout: String::new(), stderr: String::from(stderr) }
}

#[test]
fn chain_renders_outermost_then_causes() {
    let e = Error::new(String::from("underlying cause"))
        .wrap(String::from("failure to open configuration file ./cade.yaml"));
    assert_eq!(
        e.format().as_text(),
        "failure to open configuration file ./cade.yaml [due to]:\n     ➥ underlying cause"
    );
}

#[test]
fn chain_collapses_consecutive_duplicates() {
    let e = Error::new(String::from("same"))
        .wrap(String::from("same"))
        .wrap(String::from("outer"));
    assert_eq!(e.format().as_text(), "outer [due to]:\n     ➥ same");
}

#[test]
fn chain_keeps_distinct_frames_in_order() {
    let e = Error::new(String::from("root"))
        .wrap(String::from("middle"))
        .wrap(String::from("top"));
    assert_eq!(
        e.format().as_text(),
        "top [due to]:\n     ➥ middle [due to]:\n     ➥ root"
    );
}

#[test]
fn chain_appends_trace_last() {
    let e = Error::new(String::from("boom")).with_trace(String::from("frame 0"));
    assert_eq!(e.format().as_text(), "boom\n   =>: frame 0\n");
}

#[test]
fn stderr_tail_drops_first_line() {
    assert_eq!(stderr_tail("tool banner\nreal error\nsecond line"), "real error\nsecond line");
    assert_eq!(stderr_tail("only one line"), "");
    assert_eq!(stderr_tail(""), "");
    assert_eq!(stderr_tail("banner\n"), "");
}

#[test]
fn config_check_zero_exit_passes() {
    assert!(config_check_outcome(&outcome(0, "ignored\nnoise")).is_ok());
}

#[test]
fn config_check_nonzero_exit_reports_tail() {
    let e = config_check_outcome(&outcome(1, "banner line\nservice 'web' is bad")).unwrap_err();
    assert_eq!(e, "service 'web' is bad");
}

#[test]
fn bring_up_follows_successful_check_exactly_once() {
    let plan = plan_after_config(&outcome(0, ""));
    assert_eq!(
        plan,
        Some(vec![
            String::from("-f"),
            String::from("./tmp.yaml"),
            String::from("up"),
            String::from("-d"),
        ])
    );
    assert_eq!(plan_after_config(&outcome(1, "b\nerr")), None);
}

#[test]
fn fixed_commands() {
    assert_eq!(compose_program(), "docker-compose");
    assert_eq!(staging_path(), "./tmp.yaml");
    assert_eq!(config_check_args(), vec!["-f", "./tmp.yaml", "config"]);
    assert_eq!(up_args(), vec!["-f", "./tmp.yaml", "up", "-d"]);
}

#[test]
fn load_config_parses_yaml_text() {
    let text = "version: '3'\nservices:\n  web:\n    image: nginx\n";
    let c = load_config(text).unwrap();
    assert_eq!(c.version, "3");
    assert_eq!(c.services.len(), 1);
    assert_eq!(c.services[0].0, "web");
}

#[test]
fn load_config_rejects_unknown_field_in_text() {
    let text = "version: '3'\nservices:\n  web:\n    imaeg: nginx\n";
    let e = load_config(text).unwrap_err();
    assert!(e.format().as_text().contains("services.web.imaeg"));
}

#[test]
fn load_config_rejects_malformed_text() {
    assert!(load_config(": : :\n\t???").is_err());
}

#[test]
fn text_round_trip_keeps_every_field() {
    let text = "version: '3.3'\nservices:\n  web:\n    image: nginx:1.2\n    ports:\n      - 8080\n      - '443:443'\n    environment:\n      MODE: fast\n    volumes:\n      - type: bind\n        source: /srv/web\n        target: /usr/share/nginx\n        read_only: true\n  db:\n    image: postgres\n    privileged: false\n";
    let c1 = load_config(text).unwrap();
    let rendered = render_config(&c1).unwrap();
    let c2 = load_config(&rendered).unwrap();
    assert_eq!(c1, c2);
}

#[test]
fn render_then_load_minimal() {
    let c1 = load_config("version: '3'\nservices: {}\n").unwrap();
    let rendered = render_config(&c1).unwrap();
    let c2 = load_config(&rendered).unwrap();
    assert_eq!(c1, c2);
}
