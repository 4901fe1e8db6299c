use cade::{decode_config, DecodeReason, VolumeConfigurationType, Yaml};

fn s(x: &str) -> Yaml {
    Yaml::Str(String::from(x))
}

fn obj(entries: Vec<(&str, Yaml)>) -> Yaml {
    Yaml::Obj(entries.into_iter().map(|(k, v)| (s(k), v)).collect())
}

fn minimal_doc(extra_top: Vec<(&str, Yaml)>) -> Yaml {
    let mut entries = vec![("version", s("3")), ("services", obj(vec![]))];
    entries.extend(extra_top);
    obj(entries)
}

#[test]
fn decode_minimal_ok() {
    let c = decode_config(minimal_doc(vec![])).unwrap();
    assert_eq!(c.version, "3");
    assert!(c.services.is_empty());
}

#[test]
fn decode_unknown_top_field() {
    let e = decode_config(minimal_doc(vec![("bogus", Yaml::Null)])).unwrap_err();
    assert_eq!(e.location, "bogus");
    assert_eq!(e.reason, DecodeReason::UnknownField);
    assert_eq!(e.message(), "unknown field at 'bogus'");
}

#[test]
fn decode_unknown_service_field() {
    let doc = obj(vec![
        ("version", s("3")),
        ("services", obj(vec![("web", obj(vec![("frobnicate", Yaml::Null)]))])),
    ]);
    let e = decode_config(doc).unwrap_err();
    assert_eq!(e.location, "services.web.frobnicate");
    assert_eq!(e.reason, DecodeReason::UnknownField);
}

#[test]
fn decode_unknown_volume_field() {
    let vol = obj(vec![("source", s("/a")), ("target", s("/b")), ("nope", Yaml::Null)]);
    let doc = obj(vec![
        ("version", s("3")),
        ("services", obj(vec![("web", obj(vec![("volumes", Yaml::Arr(vec![vol]))]))])),
    ]);
    let e = decode_config(doc).unwrap_err();
    assert_eq!(e.location, "services.web.volumes[0].nope");
    assert_eq!(e.reason, DecodeReason::UnknownField);
}

#[test]
fn decode_missing_version() {
    let e = decode_config(obj(vec![("services", obj(vec![]))])).unwrap_err();
    assert_eq!(e.location, "version");
    assert_eq!(e.reason, DecodeReason::MissingField);
}

#[test]
fn decode_missing_services() {
    let e = decode_config(obj(vec![("version", s("3"))])).unwrap_err();
    assert_eq!(e.location, "services");
    assert_eq!(e.reason, DecodeReason::MissingField);
}

#[test]
fn decode_missing_volume_source() {
    let vol = obj(vec![("target", s("/b"))]);
    let doc = obj(vec![
        ("version", s("3")),
        ("services", obj(vec![("web", obj(vec![("volumes", Yaml::Arr(vec![vol]))]))])),
    ]);
    let e = decode_config(doc).unwrap_err();
    assert_eq!(e.location, "services.web.volumes[0].source");
    assert_eq!(e.reason, DecodeReason::MissingField);
}

#[test]
fn decode_volume_kinds() {
    for (tag, want) in [
        ("bind", VolumeConfigurationType::Bind),
        ("tmpfs", VolumeConfigurationType::Tmpfs),
    ] {
        let vol = obj(vec![("type", s(tag)), ("source", s("/a")), ("target", s("/b"))]);
        let doc = obj(vec![
            ("version", s("3")),
            ("services", obj(vec![("web", obj(vec![("volumes", Yaml::Arr(vec![vol]))]))])),
        ]);
        let c = decode_config(doc).unwrap();
        assert_eq!(c.services[0].1.volumes.as_ref().unwrap()[0].kind, Some(want));
    }
}

#[test]
fn decode_bad_volume_kind() {
    let vol = obj(vec![("type", s("local")), ("source", s("/a")), ("target", s("/b"))]);
    let doc = obj(vec![
        ("version", s("3")),
        ("services", obj(vec![("web", obj(vec![("volumes", Yaml::Arr(vec![vol]))]))])),
    ]);
    let e = decode_config(doc).unwrap_err();
    assert_eq!(e.location, "services.web.volumes[0].type");
    assert_eq!(e.reason, DecodeReason::UnknownVolumeKind);
}

#[test]
fn decode_duplicate_service() {
    let doc = obj(vec![
        ("version", s("3")),
        ("services", obj(vec![("web", obj(vec![])), ("web", obj(vec![]))])),
    ]);
    let e = decode_config(doc).unwrap_err();
    assert_eq!(e.location, "services.web");
    assert_eq!(e.reason, DecodeReason::DuplicateField);
}

#[test]
fn decode_version_must_be_text() {
    let doc = obj(vec![("version", Yaml::Num(String::from("3"))), ("services", obj(vec![]))]);
    let e = decode_config(doc).unwrap_err();
    assert_eq!(e.location, "version");
    assert_eq!(e.reason, DecodeReason::ExpectedText);
}

#[test]
fn decode_keeps_opaque_attributes() {
    let svc = obj(vec![
        ("image", s("nginx:latest")),
        ("ports", Yaml::Arr(vec![Yaml::Num(String::from("8080"))])),
        ("privileged", Yaml::Bool(true)),
    ]);
    let doc = obj(vec![("version", s("3.6")), ("services", obj(vec![("web", svc)]))]);
    let c = decode_config(doc).unwrap();
    let attrs = &c.services[0].1.attrs;
    assert_eq!(attrs.len(), 3);
    assert_eq!(attrs[0].0, "image");
    assert_eq!(attrs[0].1, Yaml::Str(String::from("nginx:latest")));
    assert_eq!(attrs[2].1, Yaml::Bool(true));
}

#[test]
fn encode_decode_round_trip_tree() {
    let vol = obj(vec![
        ("type", s("bind")),
        ("source", s("/srv/data")),
        ("target", s("/data")),
        ("read_only", Yaml::Bool(true)),
    ]);
    let svc = obj(vec![
        ("image", s("nginx")),
        ("environment", obj(vec![("A", s("1"))])),
        ("volumes", Yaml::Arr(vec![vol])),
    ]);
    let doc = obj(vec![("version", s("3.2")), ("services", obj(vec![("web", svc)]))]);
    let c1 = decode_config(doc).unwrap();
    let tree = cade::encode_config(&c1);
    let c2 = decode_config(tree).unwrap();
    assert_eq!(c1, c2);
}
