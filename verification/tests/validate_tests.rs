use cade::{
    validate_config, Configuration, ServiceConfigurationMap, VolumeConfigurationMap,
    VolumeConfigurationType,
};

fn vol(source: &str, target: &str) -> VolumeConfigurationMap {
    VolumeConfigurationMap {
        kind: None,
        source: String::from(source),
        target: String::from(target),
        attrs: vec![],
    }
}

fn svc(volumes: Option<Vec<VolumeConfigurationMap>>) -> ServiceConfigurationMap {
    ServiceConfigurationMap { attrs: vec![], volumes }
}

fn cfg(version: &str, services: Vec<(&str, ServiceConfigurationMap)>) -> Configuration {
    Configuration {
        version: String::from(version),
        services: services.into_iter().map(|(n, s)| (String::from(n), s)).collect(),
    }
}

#[test]
fn version_gate_accepts_whole_set() {
    for v in ["3", "3.0", "3.1", "3.2", "3.3", "3.4", "3.5", "3.6"] {
        assert!(validate_config(&cfg(v, vec![])).is_ok(), "version {} should pass", v);
    }
}

#[test]
fn version_gate_rejects_with_exact_message() {
    let e = validate_config(&cfg("3.9", vec![])).unwrap_err();
    assert_eq!(e, "version '3.9' is invalid, expected 3 or 3.0 - 3.6");
    assert!(e.contains("3.9"));
    assert!(e.contains("expected 3 or 3.0 - 3.6"));
}

#[test]
fn version_gate_rejects_other_tags() {
    for v in ["2", "3.7", "latest", ""] {
        let e = validate_config(&cfg(v, vec![])).unwrap_err();
        assert!(e.contains("is invalid"));
    }
}

#[test]
fn relative_volume_source_exact_message() {
    let c = cfg("3", vec![("web", svc(Some(vec![vol("relative/path", "/data")])))]);
    let e = validate_config(&c).unwrap_err();
    assert_eq!(e, "services.web.volumes[0].source 'relative/path' is not an absolute path");
}

#[test]
fn absolute_volume_sources_pass() {
    let c = cfg(
        "3.4",
        vec![("web", svc(Some(vec![vol("/srv/a", "/a"), vol("/srv/b", "/b")])))],
    );
    assert!(validate_config(&c).is_ok());
}

#[test]
fn second_volume_indexed_in_message() {
    let c = cfg("3", vec![("db", svc(Some(vec![vol("/ok", "/x"), vol("oops", "/y")])))]);
    let e = validate_config(&c).unwrap_err();
    assert_eq!(e, "services.db.volumes[1].source 'oops' is not an absolute path");
}

#[test]
fn eleventh_volume_renders_two_digit_index() {
    let mut volumes = Vec::new();
    for _ in 0..10 {
        volumes.push(vol("/fine", "/t"));
    }
    volumes.push(vol("bad", "/t"));
    let c = cfg("3", vec![("web", svc(Some(volumes)))]);
    let e = validate_config(&c).unwrap_err();
    assert_eq!(e, "services.web.volumes[10].source 'bad' is not an absolute path");
}

#[test]
fn version_gate_checked_before_volumes() {
    let c = cfg("9.9", vec![("web", svc(Some(vec![vol("relative", "/d")])))]);
    let e = validate_config(&c).unwrap_err();
    assert!(e.starts_with("version '9.9'"));
}

#[test]
fn volume_kind_does_not_affect_validation() {
    let mut v = vol("/srv", "/d");
    v.kind = Some(VolumeConfigurationType::Tmpfs);
    let c = cfg("3.6", vec![("web", svc(Some(vec![v])))]);
    assert!(validate_config(&c).is_ok());
}
