//! The deployment-descriptor schema: a closed set of fields per object, with
//! every unknown field rejected at decode time, and a faithful re-encoding of
//! a decoded descriptor back to a value tree.

use vstd::prelude::*;

use crate::text::{dec_digits, str_eq, usize_to_string};
use crate::yaml::{yaml_view, Yaml, YamlV};

verus! {

broadcast use vstd::string::group_string_axioms;

/// The two recognized volume mount kinds.
#[derive(Clone, Copy, Debug, PartialEq, Eq, Structural)]
pub enum VolumeConfigurationType {
    Bind,
    Tmpfs,
}

/// One volume mount of a service: its kind, required source and target, and
/// the remaining known attributes carried through verbatim.
#[derive(Debug, PartialEq)]
pub struct VolumeConfigurationMap {
    pub kind: Option<VolumeConfigurationType>,
    pub source: String,
    pub target: String,
    pub attrs: Vec<(String, Yaml)>,
}

/// One service: its known deployment attributes carried through verbatim, in
/// input order, and its volume mounts if any.
#[derive(Debug, PartialEq)]
pub struct ServiceConfigurationMap {
    pub attrs: Vec<(String, Yaml)>,
    pub volumes: Option<Vec<VolumeConfigurationMap>>,
}

/// A whole deployment descriptor: the version tag and the services, keyed by
/// name, in input order.
#[derive(Debug, PartialEq)]
pub struct Configuration {
    pub version: String,
    pub services: Vec<(String, ServiceConfigurationMap)>,
}

/// Why a decode failed.
#[derive(Clone, Copy, Debug, PartialEq, Eq, Structural)]
pub enum DecodeReason {
    UnknownField,
    MissingField,
    DuplicateField,
    ExpectedText,
    ExpectedTable,
    ExpectedList,
    KeyNotText,
    UnknownVolumeKind,
}

/// A decode failure: the dotted location of the offending field and the
/// reason.  The location of a whole-document failure is empty.
#[derive(Debug, PartialEq)]
pub struct DecodeError {
    pub location: String,
    pub reason: DecodeReason,
}

// ---------------------------------------------------------------------------
// Mathematical models.

#[verifier::ext_equal]
pub struct VolumeV {
    pub kind: Option<VolumeConfigurationType>,
    pub source: Seq<char>,
    pub target: Seq<char>,
    pub attrs: Seq<(Seq<char>, YamlV)>,
}

#[verifier::ext_equal]
pub struct ServiceV {
    pub attrs: Seq<(Seq<char>, YamlV)>,
    pub volumes: Option<Seq<VolumeV>>,
}

#[verifier::ext_equal]
pub struct ConfigV {
    pub version: Seq<char>,
    pub services: Seq<(Seq<char>, ServiceV)>,
}

#[verifier::ext_equal]
pub struct DecodeErrorV {
    pub location: Seq<char>,
    pub reason: DecodeReason,
}

pub open spec fn attr_deep_seq(s: Seq<(String, Yaml)>) -> Seq<(Seq<char>, YamlV)> {
    Seq::new(s.len(), |i: int| (s[i].0@, yaml_view(s[i].1)))
}

pub open spec fn pair_deep_seq(s: Seq<(Yaml, Yaml)>) -> Seq<(YamlV, YamlV)> {
    Seq::new(s.len(), |i: int| (yaml_view(s[i].0), yaml_view(s[i].1)))
}

pub open spec fn yaml_deep_seq(s: Seq<Yaml>) -> Seq<YamlV> {
    Seq::new(s.len(), |i: int| yaml_view(s[i]))
}

impl DeepView for VolumeConfigurationMap {
    type V = VolumeV;

    open spec fn deep_view(&self) -> VolumeV {
        VolumeV {
            kind: self.kind,
            source: self.source@,
            target: self.target@,
            attrs: attr_deep_seq(self.attrs@),
        }
    }
}

pub open spec fn vols_deep_seq(s: Seq<VolumeConfigurationMap>) -> Seq<VolumeV> {
    Seq::new(s.len(), |i: int| s[i].deep_view())
}

pub open spec fn opt_vols_view(o: Option<Vec<VolumeConfigurationMap>>) -> Option<Seq<VolumeV>> {
    match o {
        Option::Some(v) => Option::Some(vols_deep_seq(v@)),
        Option::None => Option::None,
    }
}

impl DeepView for ServiceConfigurationMap {
    type V = ServiceV;

    open spec fn deep_view(&self) -> ServiceV {
        ServiceV { attrs: attr_deep_seq(self.attrs@), volumes: opt_vols_view(self.volumes) }
    }
}

pub open spec fn svc_deep_seq(s: Seq<(String, ServiceConfigurationMap)>) -> Seq<
    (Seq<char>, ServiceV),
> {
    Seq::new(s.len(), |i: int| (s[i].0@, s[i].1.deep_view()))
}

pub open spec fn opt_svcs_view(o: Option<Vec<(String, ServiceConfigurationMap)>>) -> Option<
    Seq<(Seq<char>, ServiceV)>,
> {
    match o {
        Option::Some(v) => Option::Some(svc_deep_seq(v@)),
        Option::None => Option::None,
    }
}

impl DeepView for Configuration {
    type V = ConfigV;

    open spec fn deep_view(&self) -> ConfigV {
        ConfigV { version: self.version@, services: svc_deep_seq(self.services@) }
    }
}

impl DeepView for DecodeError {
    type V = DecodeErrorV;

    open spec fn deep_view(&self) -> DecodeErrorV {
        DecodeErrorV { location: self.location@, reason: self.reason }
    }
}

pub open spec fn opt_str_view(o: Option<String>) -> Option<Seq<char>> {
    match o {
        Option::Some(s) => Option::Some(s@),
        Option::None => Option::None,
    }
}

// ---------------------------------------------------------------------------
// The closed field sets.

/// The known service attribute keys besides `volumes`.
pub open spec fn service_attr_key(k: Seq<char>) -> bool {
    ||| k == "cap_add"@
    ||| k == "cap_drop"@
    ||| k == "cgroup_parent"@
    ||| k == "command"@
    ||| k == "devices"@
    ||| k == "domainname"@
    ||| k == "entrypoint"@
    ||| k == "environment"@
    ||| k == "extra_hosts"@
    ||| k == "healthcheck"@
    ||| k == "hostname"@
    ||| k == "image"@
    ||| k == "ipc"@
    ||| k == "labels"@
    ||| k == "links"@
    ||| k == "logging"@
    ||| k == "pid"@
    ||| k == "ports"@
    ||| k == "privileged"@
    ||| k == "read_only"@
    ||| k == "restart"@
    ||| k == "security_opt"@
    ||| k == "shm_size"@
    ||| k == "sysctls"@
    ||| k == "stdin_open"@
    ||| k == "stop_grace_period"@
    ||| k == "stop_signal"@
    ||| k == "tmpfs"@
    ||| k == "tty"@
    ||| k == "ulimits"@
    ||| k == "user"@
    ||| k == "working_dir"@
}

/// The known volume attribute keys besides `type`, `source` and `target`.
pub open spec fn volume_attr_key(k: Seq<char>) -> bool {
    ||| k == "read_only"@
    ||| k == "consistency"@
    ||| k == "bind"@
    ||| k == "volume"@
    ||| k == "tmpfs"@
}

fn is_service_attr_key(k: &str) -> (r: bool)
    ensures
        r == service_attr_key(k@),
{
    str_eq(k, "cap_add") || str_eq(k, "cap_drop") || str_eq(k, "cgroup_parent") || str_eq(
        k,
        "command",
    ) || str_eq(k, "devices") || str_eq(k, "domainname") || str_eq(k, "entrypoint") || str_eq(
        k,
        "environment",
    ) || str_eq(k, "extra_hosts") || str_eq(k, "healthcheck") || str_eq(k, "hostname") || str_eq(
        k,
        "image",
    ) || str_eq(k, "ipc") || str_eq(k, "labels") || str_eq(k, "links") || str_eq(k, "logging")
        || str_eq(k, "pid") || str_eq(k, "ports") || str_eq(k, "privileged") || str_eq(
        k,
        "read_only",
    ) || str_eq(k, "restart") || str_eq(k, "security_opt") || str_eq(k, "shm_size") || str_eq(
        k,
        "sysctls",
    ) || str_eq(k, "stdin_open") || str_eq(k, "stop_grace_period") || str_eq(k, "stop_signal")
        || str_eq(k, "tmpfs") || str_eq(k, "tty") || str_eq(k, "ulimits") || str_eq(k, "user")
        || str_eq(k, "working_dir")
}

fn is_volume_attr_key(k: &str) -> (r: bool)
    ensures
        r == volume_attr_key(k@),
{
    str_eq(k, "read_only") || str_eq(k, "consistency") || str_eq(k, "bind") || str_eq(k, "volume")
        || str_eq(k, "tmpfs")
}

// ---------------------------------------------------------------------------
// Locations.

pub open spec fn svc_path(name: Seq<char>) -> Seq<char> {
    "services."@ + name
}

pub open spec fn sub_field(base: Seq<char>, field: Seq<char>) -> Seq<char> {
    base + "."@ + field
}

pub open spec fn vol_path(base: Seq<char>, i: nat) -> Seq<char> {
    base + ".volumes["@ + dec_digits(i) + "]"@
}

fn svc_path_x(name: &str) -> (s: String)
    ensures
        s@ == svc_path(name@),
{
    String::from_str("services.").concat(name)
}

fn sub_field_x(base: &str, field: &str) -> (s: String)
    ensures
        s@ == sub_field(base@, field@),
{
    String::from_str(base).concat(".").concat(field)
}

fn vol_path_x(base: &str, i: usize) -> (s: String)
    ensures
        s@ == vol_path(base@, i as nat),
{
    let num = usize_to_string(i);
    String::from_str(base).concat(".volumes[").concat(num.as_str()).concat("]")
}

// ---------------------------------------------------------------------------
// Specification of the decode.

pub open spec fn has_key(attrs: Seq<(Seq<char>, YamlV)>, k: Seq<char>) -> bool {
    exists|j: int| 0 <= j < attrs.len() && attrs[j].0 == k
}

pub open spec fn has_name(svcs: Seq<(Seq<char>, ServiceV)>, name: Seq<char>) -> bool {
    exists|j: int| 0 <= j < svcs.len() && svcs[j].0 == name
}

pub open spec fn dec_volume_entries(
    path: Seq<char>,
    entries: Seq<(YamlV, YamlV)>,
    kind: Option<Option<VolumeConfigurationType>>,
    source: Option<Seq<char>>,
    target: Option<Seq<char>>,
    attrs: Seq<(Seq<char>, YamlV)>,
) -> Result<VolumeV, DecodeErrorV>
    decreases entries.len(),
{
    if entries.len() == 0 {
        if source is None {
            Err(DecodeErrorV { location: sub_field(path, "source"@), reason: DecodeReason::MissingField })
        } else if target is None {
            Err(DecodeErrorV { location: sub_field(path, "target"@), reason: DecodeReason::MissingField })
        } else {
            Ok(
                VolumeV {
                    kind: if kind is Some {
                        kind->0
                    } else {
                        Option::None
                    },
                    source: source->0,
                    target: target->0,
                    attrs,
                },
            )
        }
    } else {
        let k = entries[0].0;
        let v = entries[0].1;
        let rest = entries.drop_first();
        match k {
            YamlV::Str(ks) => {
                if ks == "type"@ {
                    if kind is Some {
                        Err(DecodeErrorV { location: sub_field(path, "type"@), reason: DecodeReason::DuplicateField })
                    } else {
                        match v {
                            YamlV::Str(tag) => {
                                if tag == "bind"@ {
                                    dec_volume_entries(
                                        path,
                                        rest,
                                        Option::Some(Option::Some(VolumeConfigurationType::Bind)),
                                        source,
                                        target,
                                        attrs,
                                    )
                                } else if tag == "tmpfs"@ {
                                    dec_volume_entries(
                                        path,
                                        rest,
                                        Option::Some(Option::Some(VolumeConfigurationType::Tmpfs)),
                                        source,
                                        target,
                                        attrs,
                                    )
                                } else {
                                    Err(DecodeErrorV { location: sub_field(path, "type"@), reason: DecodeReason::UnknownVolumeKind })
                                }
                            },
                            _ => Err(DecodeErrorV { location: sub_field(path, "type"@), reason: DecodeReason::ExpectedText }),
                        }
                    }
                } else if ks == "source"@ {
                    if source is Some {
                        Err(DecodeErrorV { location: sub_field(path, "source"@), reason: DecodeReason::DuplicateField })
                    } else {
                        match v {
                            YamlV::Str(s) => dec_volume_entries(
                                path,
                                rest,
                                kind,
                                Option::Some(s),
                                target,
                                attrs,
                            ),
                            _ => Err(DecodeErrorV { location: sub_field(path, "source"@), reason: DecodeReason::ExpectedText }),
                        }
                    }
                } else if ks == "target"@ {
                    if target is Some {
                        Err(DecodeErrorV { location: sub_field(path, "target"@), reason: DecodeReason::DuplicateField })
                    } else {
                        match v {
                            YamlV::Str(s) => dec_volume_entries(
                                path,
                                rest,
                                kind,
                                source,
                                Option::Some(s),
                                attrs,
                            ),
                            _ => Err(DecodeErrorV { location: sub_field(path, "target"@), reason: DecodeReason::ExpectedText }),
                        }
                    }
                } else if volume_attr_key(ks) {
                    if has_key(attrs, ks) {
                        Err(DecodeErrorV { location: sub_field(path, ks), reason: DecodeReason::DuplicateField })
                    } else {
                        dec_volume_entries(path, rest, kind, source, target, attrs.push((ks, v)))
                    }
                } else {
                    Err(DecodeErrorV { location: sub_field(path, ks), reason: DecodeReason::UnknownField })
                }
            },
            _ => Err(DecodeErrorV { location: path, reason: DecodeReason::KeyNotText }),
        }
    }
}

pub open spec fn dec_volumes(
    base: Seq<char>,
    items: Seq<YamlV>,
    idx: nat,
    acc: Seq<VolumeV>,
) -> Result<Seq<VolumeV>, DecodeErrorV>
    decreases items.len(),
{
    if items.len() == 0 {
        Ok(acc)
    } else {
        match items[0] {
            YamlV::Obj(es) => match dec_volume_entries(
                vol_path(base, idx),
                es,
                Option::None,
                Option::None,
                Option::None,
                Seq::empty(),
            ) {
                Ok(v) => dec_volumes(base, items.drop_first(), idx + 1, acc.push(v)),
                Err(e) => Err(e),
            },
            _ => Err(DecodeErrorV { location: vol_path(base, idx), reason: DecodeReason::ExpectedTable }),
        }
    }
}

pub open spec fn dec_service_entries(
    path: Seq<char>,
    entries: Seq<(YamlV, YamlV)>,
    attrs: Seq<(Seq<char>, YamlV)>,
    volumes: Option<Seq<VolumeV>>,
) -> Result<ServiceV, DecodeErrorV>
    decreases entries.len(),
{
    if entries.len() == 0 {
        Ok(ServiceV { attrs, volumes })
    } else {
        let k = entries[0].0;
        let v = entries[0].1;
        let rest = entries.drop_first();
        match k {
            YamlV::Str(ks) => {
                if ks == "volumes"@ {
                    if volumes is Some {
                        Err(DecodeErrorV { location: sub_field(path, "volumes"@), reason: DecodeReason::DuplicateField })
                    } else {
                        match v {
                            YamlV::Arr(items) => match dec_volumes(path, items, 0, Seq::empty()) {
                                Ok(vs) => dec_service_entries(
                                    path,
                                    rest,
                                    attrs,
                                    Option::Some(vs),
                                ),
                                Err(e) => Err(e),
                            },
                            _ => Err(DecodeErrorV { location: sub_field(path, "volumes"@), reason: DecodeReason::ExpectedList }),
                        }
                    }
                } else if service_attr_key(ks) {
                    if has_key(attrs, ks) {
                        Err(DecodeErrorV { location: sub_field(path, ks), reason: DecodeReason::DuplicateField })
                    } else {
                        dec_service_entries(path, rest, attrs.push((ks, v)), volumes)
                    }
                } else {
                    Err(DecodeErrorV { location: sub_field(path, ks), reason: DecodeReason::UnknownField })
                }
            },
            _ => Err(DecodeErrorV { location: path, reason: DecodeReason::KeyNotText }),
        }
    }
}

pub open spec fn dec_services(
    entries: Seq<(YamlV, YamlV)>,
    acc: Seq<(Seq<char>, ServiceV)>,
) -> Result<Seq<(Seq<char>, ServiceV)>, DecodeErrorV>
    decreases entries.len(),
{
    if entries.len() == 0 {
        Ok(acc)
    } else {
        let k = entries[0].0;
        let v = entries[0].1;
        let rest = entries.drop_first();
        match k {
            YamlV::Str(name) => {
                if has_name(acc, name) {
                    Err(DecodeErrorV { location: svc_path(name), reason: DecodeReason::DuplicateField })
                } else {
                    match v {
                        YamlV::Obj(es) => match dec_service_entries(
                            svc_path(name),
                            es,
                            Seq::empty(),
                            Option::None,
                        ) {
                            Ok(s) => dec_services(rest, acc.push((name, s))),
                            Err(e) => Err(e),
                        },
                        _ => Err(DecodeErrorV { location: svc_path(name), reason: DecodeReason::ExpectedTable }),
                    }
                }
            },
            _ => Err(DecodeErrorV { location: "services"@, reason: DecodeReason::KeyNotText }),
        }
    }
}

pub open spec fn dec_config_entries(
    entries: Seq<(YamlV, YamlV)>,
    version: Option<Seq<char>>,
    services: Option<Seq<(Seq<char>, ServiceV)>>,
) -> Result<ConfigV, DecodeErrorV>
    decreases entries.len(),
{
    if entries.len() == 0 {
        if version is None {
            Err(DecodeErrorV { location: "version"@, reason: DecodeReason::MissingField })
        } else if services is None {
            Err(DecodeErrorV { location: "services"@, reason: DecodeReason::MissingField })
        } else {
            Ok(ConfigV { version: version->0, services: services->0 })
        }
    } else {
        let k = entries[0].0;
        let v = entries[0].1;
        let rest = entries.drop_first();
        match k {
            YamlV::Str(ks) => {
                if ks == "version"@ {
                    if version is Some {
                        Err(DecodeErrorV { location: "version"@, reason: DecodeReason::DuplicateField })
                    } else {
                        match v {
                            YamlV::Str(s) => dec_config_entries(rest, Option::Some(s), services),
                            _ => Err(DecodeErrorV { location: "version"@, reason: DecodeReason::ExpectedText }),
                        }
                    }
                } else if ks == "services"@ {
                    if services is Some {
                        Err(DecodeErrorV { location: "services"@, reason: DecodeReason::DuplicateField })
                    } else {
                        match v {
                            YamlV::Obj(es) => match dec_services(es, Seq::empty()) {
                                Ok(svcs) => dec_config_entries(
                                    rest,
                                    version,
                                    Option::Some(svcs),
                                ),
                                Err(e) => Err(e),
                            },
                            _ => Err(DecodeErrorV { location: "services"@, reason: DecodeReason::ExpectedTable }),
                        }
                    }
                } else {
                    Err(DecodeErrorV { location: ks, reason: DecodeReason::UnknownField })
                }
            },
            _ => Err(DecodeErrorV { location: Seq::empty(), reason: DecodeReason::KeyNotText }),
        }
    }
}

/// What decoding a value tree yields: the descriptor, or the first failure in
/// entry order.
pub open spec fn dec_config(y: YamlV) -> Result<ConfigV, DecodeErrorV> {
    match y {
        YamlV::Obj(es) => dec_config_entries(es, Option::None, Option::None),
        _ => Err(DecodeErrorV { location: Seq::empty(), reason: DecodeReason::ExpectedTable }),
    }
}

// ---------------------------------------------------------------------------
// Bridging facts between the executable values and their models.

proof fn lemma_pair_deep_remove0(s0: Seq<(Yaml, Yaml)>, s1: Seq<(Yaml, Yaml)>)
    requires
        s0.len() > 0,
        s1 == s0.remove(0),
    ensures
        pair_deep_seq(s1) == pair_deep_seq(s0).drop_first(),
        pair_deep_seq(s0).len() == s0.len(),
        pair_deep_seq(s0)[0] == (yaml_view(s0[0].0), yaml_view(s0[0].1)),
{
    assert forall|i: int| 0 <= i < pair_deep_seq(s1).len() implies pair_deep_seq(s1)[i]
        == pair_deep_seq(s0).drop_first()[i] by {
        assert(s1[i] == s0[i + 1]);
    }
    assert(pair_deep_seq(s1) =~= pair_deep_seq(s0).drop_first());
}

proof fn lemma_yaml_deep_remove0(s0: Seq<Yaml>, s1: Seq<Yaml>)
    requires
        s0.len() > 0,
        s1 == s0.remove(0),
    ensures
        yaml_deep_seq(s1) == yaml_deep_seq(s0).drop_first(),
        yaml_deep_seq(s0).len() == s0.len(),
        yaml_deep_seq(s0)[0] == yaml_view(s0[0]),
{
    assert forall|i: int| 0 <= i < yaml_deep_seq(s1).len() implies yaml_deep_seq(s1)[i]
        == yaml_deep_seq(s0).drop_first()[i] by {
        assert(s1[i] == s0[i + 1]);
    }
    assert(yaml_deep_seq(s1) =~= yaml_deep_seq(s0).drop_first());
}

proof fn lemma_attr_deep_push(s: Seq<(String, Yaml)>, p: (String, Yaml))
    ensures
        attr_deep_seq(s.push(p)) == attr_deep_seq(s).push((p.0@, yaml_view(p.1))),
{
    assert(attr_deep_seq(s.push(p)) =~= attr_deep_seq(s).push((p.0@, yaml_view(p.1))));
}

proof fn lemma_vols_deep_push(s: Seq<VolumeConfigurationMap>, p: VolumeConfigurationMap)
    ensures
        vols_deep_seq(s.push(p)) == vols_deep_seq(s).push(p.deep_view()),
{
    assert(vols_deep_seq(s.push(p)) =~= vols_deep_seq(s).push(p.deep_view()));
}

proof fn lemma_svc_deep_push(s: Seq<(String, ServiceConfigurationMap)>, p: (String, ServiceConfigurationMap))
    ensures
        svc_deep_seq(s.push(p)) == svc_deep_seq(s).push((p.0@, p.1.deep_view())),
{
    assert(svc_deep_seq(s.push(p)) =~= svc_deep_seq(s).push((p.0@, p.1.deep_view())));
}

proof fn lemma_attr_deep_empty(s: Seq<(String, Yaml)>)
    requires
        s.len() == 0,
    ensures
        attr_deep_seq(s) == Seq::<(Seq<char>, YamlV)>::empty(),
{
    assert(attr_deep_seq(s) =~= Seq::<(Seq<char>, YamlV)>::empty());
}

proof fn lemma_vols_deep_empty(s: Seq<VolumeConfigurationMap>)
    requires
        s.len() == 0,
    ensures
        vols_deep_seq(s) == Seq::<VolumeV>::empty(),
{
    assert(vols_deep_seq(s) =~= Seq::<VolumeV>::empty());
}

proof fn lemma_svc_deep_empty(s: Seq<(String, ServiceConfigurationMap)>)
    requires
        s.len() == 0,
    ensures
        svc_deep_seq(s) == Seq::<(Seq<char>, ServiceV)>::empty(),
{
    assert(svc_deep_seq(s) =~= Seq::<(Seq<char>, ServiceV)>::empty());
}

fn attrs_has_key(attrs: &Vec<(String, Yaml)>, k: &str) -> (r: bool)
    ensures
        r == has_key(attr_deep_seq(attrs@), k@),
{
    let mut i: usize = 0;
    while i < attrs.len()
        invariant
            i <= attrs@.len(),
            forall|j: int| 0 <= j < i ==> (#[trigger] attr_deep_seq(attrs@)[j]).0 != k@,
        decreases attrs@.len() - i,
    {
        if str_eq(attrs[i].0.as_str(), k) {
            proof {
                assert(attr_deep_seq(attrs@)[i as int].0 == k@);
            }
            return true;
        }
        proof {
            assert(attr_deep_seq(attrs@)[i as int].0 == attrs@[i as int].0@);
        }
        i += 1;
    }
    false
}

fn svcs_has_name(svcs: &Vec<(String, ServiceConfigurationMap)>, name: &str) -> (r: bool)
    ensures
        r == has_name(svc_deep_seq(svcs@), name@),
{
    let mut i: usize = 0;
    while i < svcs.len()
        invariant
            i <= svcs@.len(),
            forall|j: int| 0 <= j < i ==> (#[trigger] svc_deep_seq(svcs@)[j]).0 != name@,
        decreases svcs@.len() - i,
    {
        if str_eq(svcs[i].0.as_str(), name) {
            proof {
                assert(svc_deep_seq(svcs@)[i as int].0 == name@);
            }
            return true;
        }
        proof {
            assert(svc_deep_seq(svcs@)[i as int].0 == svcs@[i as int].0@);
        }
        i += 1;
    }
    false
}

// ---------------------------------------------------------------------------
// The executable decode.

fn decode_volume_entries(
    path: &str,
    entries: Vec<(Yaml, Yaml)>,
    kind: Option<Option<VolumeConfigurationType>>,
    source: Option<String>,
    target: Option<String>,
    attrs: Vec<(String, Yaml)>,
) -> (r: Result<VolumeConfigurationMap, DecodeError>)
    ensures
        (match r {
            Ok(c) => dec_volume_entries(
                path@,
                pair_deep_seq(entries@),
                kind,
                opt_str_view(source),
                opt_str_view(target),
                attr_deep_seq(attrs@),
            ) == Ok::<VolumeV, DecodeErrorV>(c.deep_view()),
            Err(e) => dec_volume_entries(
                path@,
                pair_deep_seq(entries@),
                kind,
                opt_str_view(source),
                opt_str_view(target),
                attr_deep_seq(attrs@),
            ) == Err::<VolumeV, DecodeErrorV>(e.deep_view()),
        }),
    decreases entries@.len(),
{
    let mut entries = entries;
    let ghost e0 = entries@;
    if entries.len() == 0 {
        match source {
            Option::None => Err(
                DecodeError {
                    location: sub_field_x(path, "source"),
                    reason: DecodeReason::MissingField,
                },
            ),
            Option::Some(src) => match target {
                Option::None => Err(
                    DecodeError {
                        location: sub_field_x(path, "target"),
                        reason: DecodeReason::MissingField,
                    },
                ),
                Option::Some(tgt) => {
                    let flat: Option<VolumeConfigurationType> = match kind {
                        Option::Some(k0) => k0,
                        Option::None => Option::None,
                    };
                    Ok(VolumeConfigurationMap { kind: flat, source: src, target: tgt, attrs })
                },
            },
        }
    } else {
        let (k, v) = entries.remove(0);
        proof {
            lemma_pair_deep_remove0(e0, entries@);
        }
        match k {
            Yaml::Str(ks) => {
                if str_eq(ks.as_str(), "type") {
                    if kind.is_some() {
                        Err(
                            DecodeError {
                                location: sub_field_x(path, "type"),
                                reason: DecodeReason::DuplicateField,
                            },
                        )
                    } else {
                        match v {
                            Yaml::Str(tag) => {
                                if str_eq(tag.as_str(), "bind") {
                                    decode_volume_entries(
                                        path,
                                        entries,
                                        Option::Some(Option::Some(VolumeConfigurationType::Bind)),
                                        source,
                                        target,
                                        attrs,
                                    )
                                } else if str_eq(tag.as_str(), "tmpfs") {
                                    decode_volume_entries(
                                        path,
                                        entries,
                                        Option::Some(Option::Some(VolumeConfigurationType::Tmpfs)),
                                        source,
                                        target,
                                        attrs,
                                    )
                                } else {
                                    Err(
                                        DecodeError {
                                            location: sub_field_x(path, "type"),
                                            reason: DecodeReason::UnknownVolumeKind,
                                        },
                                    )
                                }
                            },
                            _ => Err(
                                DecodeError {
                                    location: sub_field_x(path, "type"),
                                    reason: DecodeReason::ExpectedText,
                                },
                            ),
                        }
                    }
                } else if str_eq(ks.as_str(), "source") {
                    if source.is_some() {
                        Err(
                            DecodeError {
                                location: sub_field_x(path, "source"),
                                reason: DecodeReason::DuplicateField,
                            },
                        )
                    } else {
                        match v {
                            Yaml::Str(sv) => decode_volume_entries(
                                path,
                                entries,
                                kind,
                                Option::Some(sv),
                                target,
                                attrs,
                            ),
                            _ => Err(
                                DecodeError {
                                    location: sub_field_x(path, "source"),
                                    reason: DecodeReason::ExpectedText,
                                },
                            ),
                        }
                    }
                } else if str_eq(ks.as_str(), "target") {
                    if target.is_some() {
                        Err(
                            DecodeError {
                                location: sub_field_x(path, "target"),
                                reason: DecodeReason::DuplicateField,
                            },
                        )
                    } else {
                        match v {
                            Yaml::Str(tv) => decode_volume_entries(
                                path,
                                entries,
                                kind,
                                source,
                                Option::Some(tv),
                                attrs,
                            ),
                            _ => Err(
                                DecodeError {
                                    location: sub_field_x(path, "target"),
                                    reason: DecodeReason::ExpectedText,
                                },
                            ),
                        }
                    }
                } else if is_volume_attr_key(ks.as_str()) {
                    if attrs_has_key(&attrs, ks.as_str()) {
                        Err(
                            DecodeError {
                                location: sub_field_x(path, ks.as_str()),
                                reason: DecodeReason::DuplicateField,
                            },
                        )
                    } else {
                        let ghost a0 = attrs@;
                        let mut attrs = attrs;
                        attrs.push((ks, v));
                        proof {
                            lemma_attr_deep_push(a0, attrs@[a0.len() as int]);
                        }
                        decode_volume_entries(path, entries, kind, source, target, attrs)
                    }
                } else {
                    Err(
                        DecodeError {
                            location: sub_field_x(path, ks.as_str()),
                            reason: DecodeReason::UnknownField,
                        },
                    )
                }
            },
            _ => Err(
                DecodeError {
                    location: String::from_str(path),
                    reason: DecodeReason::KeyNotText,
                },
            ),
        }
    }
}

fn decode_volumes(
    base: &str,
    items: Vec<Yaml>,
    idx: usize,
    acc: Vec<VolumeConfigurationMap>,
) -> (r: Result<Vec<VolumeConfigurationMap>, DecodeError>)
    requires
        idx + items@.len() <= usize::MAX,
    ensures
        (match r {
            Ok(vs) => dec_volumes(base@, yaml_deep_seq(items@), idx as nat, vols_deep_seq(acc@))
                == Ok::<Seq<VolumeV>, DecodeErrorV>(vols_deep_seq(vs@)),
            Err(e) => dec_volumes(base@, yaml_deep_seq(items@), idx as nat, vols_deep_seq(acc@))
                == Err::<Seq<VolumeV>, DecodeErrorV>(e.deep_view()),
        }),
    decreases items@.len(),
{
    let mut items = items;
    let ghost i0 = items@;
    if items.len() == 0 {
        Ok(acc)
    } else {
        let item = items.remove(0);
        proof {
            lemma_yaml_deep_remove0(i0, items@);
        }
        match item {
            Yaml::Obj(es) => {
                let path = vol_path_x(base, idx);
                proof {
                    let a = yaml_view(item)->Obj_0;
                    let b = pair_deep_seq(es@);
                    assert forall|i: int| 0 <= i < a.len() implies a[i] == b[i] by {
                        assert(a[i] == (yaml_view(es@[i].0), yaml_view(es@[i].1)));
                        assert(b[i] == (yaml_view(es@[i].0), yaml_view(es@[i].1)));
                    }
                    assert(a =~= b);
                    lemma_attr_deep_empty(Seq::<(String, Yaml)>::empty());
                }
                let attrs0: Vec<(String, Yaml)> = Vec::new();
                match decode_volume_entries(
                    path.as_str(),
                    es,
                    Option::None,
                    Option::None,
                    Option::None,
                    attrs0,
                ) {
                    Ok(vm) => {
                        let ghost acc0 = acc@;
                        let mut acc = acc;
                        acc.push(vm);
                        proof {
                            lemma_vols_deep_push(acc0, acc@[acc0.len() as int]);
                        }
                        decode_volumes(base, items, idx + 1, acc)
                    },
                    Err(e) => Err(e),
                }
            },
            _ => Err(
                DecodeError {
                    location: vol_path_x(base, idx),
                    reason: DecodeReason::ExpectedTable,
                },
            ),
        }
    }
}

fn decode_service_entries(
    path: &str,
    entries: Vec<(Yaml, Yaml)>,
    attrs: Vec<(String, Yaml)>,
    volumes: Option<Vec<VolumeConfigurationMap>>,
) -> (r: Result<ServiceConfigurationMap, DecodeError>)
    ensures
        (match r {
            Ok(c) => dec_service_entries(
                path@,
                pair_deep_seq(entries@),
                attr_deep_seq(attrs@),
                opt_vols_view(volumes),
            ) == Ok::<ServiceV, DecodeErrorV>(c.deep_view()),
            Err(e) => dec_service_entries(
                path@,
                pair_deep_seq(entries@),
                attr_deep_seq(attrs@),
                opt_vols_view(volumes),
            ) == Err::<ServiceV, DecodeErrorV>(e.deep_view()),
        }),
    decreases entries@.len(),
{
    let mut entries = entries;
    let ghost e0 = entries@;
    if entries.len() == 0 {
        Ok(ServiceConfigurationMap { attrs, volumes })
    } else {
        let (k, v) = entries.remove(0);
        proof {
            lemma_pair_deep_remove0(e0, entries@);
        }
        match k {
            Yaml::Str(ks) => {
                if str_eq(ks.as_str(), "volumes") {
                    if volumes.is_some() {
                        Err(
                            DecodeError {
                                location: sub_field_x(path, "volumes"),
                                reason: DecodeReason::DuplicateField,
                            },
                        )
                    } else {
                        match v {
                            Yaml::Arr(items) => {
                                proof {
                                    let a = yaml_view(v)->Arr_0;
                                    let b = yaml_deep_seq(items@);
                                    assert forall|i: int| 0 <= i < a.len() implies a[i] == b[i] by {
                                        assert(a[i] == yaml_view(items@[i]));
                                        assert(b[i] == yaml_view(items@[i]));
                                    }
                                    assert(a =~= b);
                                    lemma_vols_deep_empty(Seq::<VolumeConfigurationMap>::empty());
                                    assert(items@.len() <= usize::MAX) by {
                                        assert(items.len() == items@.len());
                                    }
                                }
                                let acc0: Vec<VolumeConfigurationMap> = Vec::new();
                                match decode_volumes(path, items, 0, acc0) {
                                    Ok(vs) => decode_service_entries(
                                        path,
                                        entries,
                                        attrs,
                                        Option::Some(vs),
                                    ),
                                    Err(e) => Err(e),
                                }
                            },
                            _ => Err(
                                DecodeError {
                                    location: sub_field_x(path, "volumes"),
                                    reason: DecodeReason::ExpectedList,
                                },
                            ),
                        }
                    }
                } else if is_service_attr_key(ks.as_str()) {
                    if attrs_has_key(&attrs, ks.as_str()) {
                        Err(
                            DecodeError {
                                location: sub_field_x(path, ks.as_str()),
                                reason: DecodeReason::DuplicateField,
                            },
                        )
                    } else {
                        let ghost a0 = attrs@;
                        let mut attrs = attrs;
                        attrs.push((ks, v));
                        proof {
                            lemma_attr_deep_push(a0, attrs@[a0.len() as int]);
                        }
                        decode_service_entries(path, entries, attrs, volumes)
                    }
                } else {
                    Err(
                        DecodeError {
                            location: sub_field_x(path, ks.as_str()),
                            reason: DecodeReason::UnknownField,
                        },
                    )
                }
            },
            _ => Err(
                DecodeError {
                    location: String::from_str(path),
                    reason: DecodeReason::KeyNotText,
                },
            ),
        }
    }
}

fn decode_services(
    entries: Vec<(Yaml, Yaml)>,
    acc: Vec<(String, ServiceConfigurationMap)>,
) -> (r: Result<Vec<(String, ServiceConfigurationMap)>, DecodeError>)
    ensures
        (match r {
            Ok(vs) => dec_services(pair_deep_seq(entries@), svc_deep_seq(acc@))
                == Ok::<Seq<(Seq<char>, ServiceV)>, DecodeErrorV>(svc_deep_seq(vs@)),
            Err(e) => dec_services(pair_deep_seq(entries@), svc_deep_seq(acc@))
                == Err::<Seq<(Seq<char>, ServiceV)>, DecodeErrorV>(e.deep_view()),
        }),
    decreases entries@.len(),
{
    let mut entries = entries;
    let ghost e0 = entries@;
    if entries.len() == 0 {
        Ok(acc)
    } else {
        let (k, v) = entries.remove(0);
        proof {
            lemma_pair_deep_remove0(e0, entries@);
        }
        match k {
            Yaml::Str(name) => {
                if svcs_has_name(&acc, name.as_str()) {
                    Err(
                        DecodeError {
                            location: svc_path_x(name.as_str()),
                            reason: DecodeReason::DuplicateField,
                        },
                    )
                } else {
                    match v {
                        Yaml::Obj(es) => {
                            proof {
                                let a = yaml_view(v)->Obj_0;
                                let b = pair_deep_seq(es@);
                                assert forall|i: int| 0 <= i < a.len() implies a[i] == b[i] by {
                                    assert(a[i] == (yaml_view(es@[i].0), yaml_view(es@[i].1)));
                                    assert(b[i] == (yaml_view(es@[i].0), yaml_view(es@[i].1)));
                                }
                                assert(a =~= b);
                                lemma_attr_deep_empty(Seq::<(String, Yaml)>::empty());
                            }
                            let path = svc_path_x(name.as_str());
                            let attrs0: Vec<(String, Yaml)> = Vec::new();
                            match decode_service_entries(path.as_str(), es, attrs0, Option::None) {
                                Ok(svc) => {
                                    let ghost acc0 = acc@;
                                    let mut acc = acc;
                                    acc.push((name, svc));
                                    proof {
                                        lemma_svc_deep_push(acc0, acc@[acc0.len() as int]);
                                    }
                                    decode_services(entries, acc)
                                },
                                Err(e) => Err(e),
                            }
                        },
                        _ => Err(
                            DecodeError {
                                location: svc_path_x(name.as_str()),
                                reason: DecodeReason::ExpectedTable,
                            },
                        ),
                    }
                }
            },
            _ => Err(
                DecodeError {
                    location: String::from_str("services"),
                    reason: DecodeReason::KeyNotText,
                },
            ),
        }
    }
}

fn decode_config_entries(
    entries: Vec<(Yaml, Yaml)>,
    version: Option<String>,
    services: Option<Vec<(String, ServiceConfigurationMap)>>,
) -> (r: Result<Configuration, DecodeError>)
    ensures
        (match r {
            Ok(c) => dec_config_entries(
                pair_deep_seq(entries@),
                opt_str_view(version),
                opt_svcs_view(services),
            ) == Ok::<ConfigV, DecodeErrorV>(c.deep_view()),
            Err(e) => dec_config_entries(
                pair_deep_seq(entries@),
                opt_str_view(version),
                opt_svcs_view(services),
            ) == Err::<ConfigV, DecodeErrorV>(e.deep_view()),
        }),
    decreases entries@.len(),
{
    let mut entries = entries;
    let ghost e0 = entries@;
    if entries.len() == 0 {
        match version {
            Option::None => Err(
                DecodeError {
                    location: String::from_str("version"),
                    reason: DecodeReason::MissingField,
                },
            ),
            Option::Some(ver) => match services {
                Option::None => Err(
                    DecodeError {
                        location: String::from_str("services"),
                        reason: DecodeReason::MissingField,
                    },
                ),
                Option::Some(svcs) => Ok(Configuration { version: ver, services: svcs }),
            },
        }
    } else {
        let (k, v) = entries.remove(0);
        proof {
            lemma_pair_deep_remove0(e0, entries@);
        }
        match k {
            Yaml::Str(ks) => {
                if str_eq(ks.as_str(), "version") {
                    if version.is_some() {
                        Err(
                            DecodeError {
                                location: String::from_str("version"),
                                reason: DecodeReason::DuplicateField,
                            },
                        )
                    } else {
                        match v {
                            Yaml::Str(sv) => decode_config_entries(
                                entries,
                                Option::Some(sv),
                                services,
                            ),
                            _ => Err(
                                DecodeError {
                                    location: String::from_str("version"),
                                    reason: DecodeReason::ExpectedText,
                                },
                            ),
                        }
                    }
                } else if str_eq(ks.as_str(), "services") {
                    if services.is_some() {
                        Err(
                            DecodeError {
                                location: String::from_str("services"),
                                reason: DecodeReason::DuplicateField,
                            },
                        )
                    } else {
                        match v {
                            Yaml::Obj(es) => {
                                proof {
                                    let a = yaml_view(v)->Obj_0;
                                    let b = pair_deep_seq(es@);
                                    assert forall|i: int| 0 <= i < a.len() implies a[i] == b[i] by {
                                        assert(a[i] == (yaml_view(es@[i].0), yaml_view(es@[i].1)));
                                        assert(b[i] == (yaml_view(es@[i].0), yaml_view(es@[i].1)));
                                    }
                                    assert(a =~= b);
                                    lemma_svc_deep_empty(
                                        Seq::<(String, ServiceConfigurationMap)>::empty(),
                                    );
                                }
                                let acc0: Vec<(String, ServiceConfigurationMap)> = Vec::new();
                                match decode_services(es, acc0) {
                                    Ok(svcs) => decode_config_entries(
                                        entries,
                                        version,
                                        Option::Some(svcs),
                                    ),
                                    Err(e) => Err(e),
                                }
                            },
                            _ => Err(
                                DecodeError {
                                    location: String::from_str("services"),
                                    reason: DecodeReason::ExpectedTable,
                                },
                            ),
                        }
                    }
                } else {
                    Err(DecodeError { location: ks, reason: DecodeReason::UnknownField })
                }
            },
            _ => Err(DecodeError { location: String::new(), reason: DecodeReason::KeyNotText }),
        }
    }
}

/// Decodes a value tree into a descriptor under the closed-world policy: the
/// result is exactly what [`dec_config`] yields on the tree's abstraction.
pub fn decode_config(y: Yaml) -> (r: Result<Configuration, DecodeError>)
    ensures
        (match r {
            Ok(c) => dec_config(yaml_view(y)) == Ok::<ConfigV, DecodeErrorV>(c.deep_view()),
            Err(e) => dec_config(yaml_view(y)) == Err::<ConfigV, DecodeErrorV>(e.deep_view()),
        }),
{
    match y {
        Yaml::Obj(entries) => {
            proof {
                let a = yaml_view(y)->Obj_0;
                let b = pair_deep_seq(entries@);
                assert forall|i: int| 0 <= i < a.len() implies a[i] == b[i] by {
                    assert(a[i] == (yaml_view(entries@[i].0), yaml_view(entries@[i].1)));
                    assert(b[i] == (yaml_view(entries@[i].0), yaml_view(entries@[i].1)));
                }
                assert(a =~= b);
            }
            decode_config_entries(entries, Option::None, Option::None)
        },
        _ => Err(DecodeError { location: String::new(), reason: DecodeReason::ExpectedTable }),
    }
}

// ---------------------------------------------------------------------------
// Re-encoding a descriptor to a value tree.

pub open spec fn enc_attr_entries(attrs: Seq<(Seq<char>, YamlV)>) -> Seq<(YamlV, YamlV)> {
    Seq::new(attrs.len(), |i: int| (YamlV::Str(attrs[i].0), attrs[i].1))
}

pub open spec fn enc_kind_entries(kind: Option<VolumeConfigurationType>) -> Seq<(YamlV, YamlV)> {
    match kind {
        Option::Some(VolumeConfigurationType::Bind) => seq![
            (YamlV::Str("type"@), YamlV::Str("bind"@)),
        ],
        Option::Some(VolumeConfigurationType::Tmpfs) => seq![
            (YamlV::Str("type"@), YamlV::Str("tmpfs"@)),
        ],
        Option::None => Seq::empty(),
    }
}

pub open spec fn enc_volume(v: VolumeV) -> YamlV {
    YamlV::Obj(
        enc_kind_entries(v.kind) + seq![
            (YamlV::Str("source"@), YamlV::Str(v.source)),
            (YamlV::Str("target"@), YamlV::Str(v.target)),
        ] + enc_attr_entries(v.attrs),
    )
}

pub open spec fn enc_volumes(vs: Seq<VolumeV>) -> Seq<YamlV> {
    Seq::new(vs.len(), |i: int| enc_volume(vs[i]))
}

pub open spec fn enc_vol_entries(volumes: Option<Seq<VolumeV>>) -> Seq<(YamlV, YamlV)> {
    match volumes {
        Option::Some(vs) => seq![(YamlV::Str("volumes"@), YamlV::Arr(enc_volumes(vs)))],
        Option::None => Seq::empty(),
    }
}

pub open spec fn enc_service(s: ServiceV) -> YamlV {
    YamlV::Obj(enc_attr_entries(s.attrs) + enc_vol_entries(s.volumes))
}

pub open spec fn enc_services(svcs: Seq<(Seq<char>, ServiceV)>) -> Seq<(YamlV, YamlV)> {
    Seq::new(svcs.len(), |i: int| (YamlV::Str(svcs[i].0), enc_service(svcs[i].1)))
}

pub open spec fn enc_config(c: ConfigV) -> YamlV {
    YamlV::Obj(
        seq![
            (YamlV::Str("version"@), YamlV::Str(c.version)),
            (YamlV::Str("services"@), YamlV::Obj(enc_services(c.services))),
        ],
    )
}

// ---------------------------------------------------------------------------
// Well-formedness: what a decoded descriptor always satisfies.

pub open spec fn distinct_keys(attrs: Seq<(Seq<char>, YamlV)>) -> bool {
    forall|j1: int, j2: int| 0 <= j1 < j2 < attrs.len() ==> (#[trigger] attrs[j1]).0 != (
    #[trigger] attrs[j2]).0
}

pub open spec fn wf_volume(v: VolumeV) -> bool {
    &&& forall|j: int| 0 <= j < v.attrs.len() ==> volume_attr_key((#[trigger] v.attrs[j]).0)
    &&& distinct_keys(v.attrs)
}

pub open spec fn wf_service(s: ServiceV) -> bool {
    &&& forall|j: int| 0 <= j < s.attrs.len() ==> service_attr_key((#[trigger] s.attrs[j]).0)
    &&& distinct_keys(s.attrs)
    &&& match s.volumes {
        Option::Some(vs) => forall|j: int| 0 <= j < vs.len() ==> wf_volume(#[trigger] vs[j]),
        Option::None => true,
    }
}

pub open spec fn distinct_names(svcs: Seq<(Seq<char>, ServiceV)>) -> bool {
    forall|j1: int, j2: int| 0 <= j1 < j2 < svcs.len() ==> (#[trigger] svcs[j1]).0 != (
    #[trigger] svcs[j2]).0
}

pub open spec fn wf_config(c: ConfigV) -> bool {
    &&& distinct_names(c.services)
    &&& forall|j: int| 0 <= j < c.services.len() ==> wf_service((#[trigger] c.services[j]).1)
}

// ---------------------------------------------------------------------------
// The known keys are distinct from the specially treated ones.

proof fn lemma_volume_attr_key_distinct(k: Seq<char>)
    requires
        volume_attr_key(k),
    ensures
        k != "type"@,
        k != "source"@,
        k != "target"@,
{
    reveal_strlit("type");
    reveal_strlit("source");
    reveal_strlit("target");
    reveal_strlit("read_only");
    reveal_strlit("consistency");
    reveal_strlit("bind");
    reveal_strlit("volume");
    reveal_strlit("tmpfs");
    assert("bind"@.len() == 4);
    assert("bind"@[0] == 'b');
    assert("consistency"@.len() == 11);
    assert("consistency"@[0] == 'c');
    assert("read_only"@.len() == 9);
    assert("read_only"@[0] == 'r');
    assert("source"@.len() == 6);
    assert("source"@[0] == 's');
    assert("target"@.len() == 6);
    assert("target"@[0] == 't');
    assert("tmpfs"@.len() == 5);
    assert("tmpfs"@[0] == 't');
    assert("type"@.len() == 4);
    assert("type"@[0] == 't');
    assert("volume"@.len() == 6);
    assert("volume"@[0] == 'v');
}

#[verifier::rlimit(50)]
proof fn lemma_service_attr_key_distinct(k: Seq<char>)
    requires
        service_attr_key(k),
    ensures
        k != "volumes"@,
{
    reveal_strlit("volumes");
    reveal_strlit("cap_add");
    reveal_strlit("cap_drop");
    reveal_strlit("cgroup_parent");
    reveal_strlit("command");
    reveal_strlit("devices");
    reveal_strlit("domainname");
    reveal_strlit("entrypoint");
    reveal_strlit("environment");
    reveal_strlit("extra_hosts");
    reveal_strlit("healthcheck");
    reveal_strlit("hostname");
    reveal_strlit("image");
    reveal_strlit("ipc");
    reveal_strlit("labels");
    reveal_strlit("links");
    reveal_strlit("logging");
    reveal_strlit("pid");
    reveal_strlit("ports");
    reveal_strlit("privileged");
    reveal_strlit("read_only");
    reveal_strlit("restart");
    reveal_strlit("security_opt");
    reveal_strlit("shm_size");
    reveal_strlit("sysctls");
    reveal_strlit("stdin_open");
    reveal_strlit("stop_grace_period");
    reveal_strlit("stop_signal");
    reveal_strlit("tmpfs");
    reveal_strlit("tty");
    reveal_strlit("ulimits");
    reveal_strlit("user");
    reveal_strlit("working_dir");
    assert("cap_add"@.len() == 7);
    assert("cap_add"@[0] == 'c');
    assert("cap_drop"@.len() == 8);
    assert("cap_drop"@[0] == 'c');
    assert("cgroup_parent"@.len() == 13);
    assert("cgroup_parent"@[0] == 'c');
    assert("command"@.len() == 7);
    assert("command"@[0] == 'c');
    assert("devices"@.len() == 7);
    assert("devices"@[0] == 'd');
    assert("domainname"@.len() == 10);
    assert("domainname"@[0] == 'd');
    assert("entrypoint"@.len() == 10);
    assert("entrypoint"@[0] == 'e');
    assert("environment"@.len() == 11);
    assert("environment"@[0] == 'e');
    assert("extra_hosts"@.len() == 11);
    assert("extra_hosts"@[0] == 'e');
    assert("healthcheck"@.len() == 11);
    assert("healthcheck"@[0] == 'h');
    assert("hostname"@.len() == 8);
    assert("hostname"@[0] == 'h');
    assert("image"@.len() == 5);
    assert("image"@[0] == 'i');
    assert("ipc"@.len() == 3);
    assert("ipc"@[0] == 'i');
    assert("labels"@.len() == 6);
    assert("labels"@[0] == 'l');
    assert("links"@.len() == 5);
    assert("links"@[0] == 'l');
    assert("logging"@.len() == 7);
    assert("logging"@[0] == 'l');
    assert("pid"@.len() == 3);
    assert("pid"@[0] == 'p');
    assert("ports"@.len() == 5);
    assert("ports"@[0] == 'p');
    assert("privileged"@.len() == 10);
    assert("privileged"@[0] == 'p');
    assert("read_only"@.len() == 9);
    assert("read_only"@[0] == 'r');
    assert("restart"@.len() == 7);
    assert("restart"@[0] == 'r');
    assert("security_opt"@.len() == 12);
    assert("security_opt"@[0] == 's');
    assert("shm_size"@.len() == 8);
    assert("shm_size"@[0] == 's');
    assert("stdin_open"@.len() == 10);
    assert("stdin_open"@[0] == 's');
    assert("stop_grace_period"@.len() == 17);
    assert("stop_grace_period"@[0] == 's');
    assert("stop_signal"@.len() == 11);
    assert("stop_signal"@[0] == 's');
    assert("sysctls"@.len() == 7);
    assert("sysctls"@[0] == 's');
    assert("tmpfs"@.len() == 5);
    assert("tmpfs"@[0] == 't');
    assert("tty"@.len() == 3);
    assert("tty"@[0] == 't');
    assert("ulimits"@.len() == 7);
    assert("ulimits"@[0] == 'u');
    assert("user"@.len() == 4);
    assert("user"@[0] == 'u');
    assert("volumes"@.len() == 7);
    assert("volumes"@[0] == 'v');
    assert("working_dir"@.len() == 11);
    assert("working_dir"@[0] == 'w');
}

// ---------------------------------------------------------------------------
// Round trip: decoding what was encoded gives the descriptor back.

proof fn lemma_rt_vol_attrs(
    path: Seq<char>,
    attrs: Seq<(Seq<char>, YamlV)>,
    i: int,
    tail: Seq<(YamlV, YamlV)>,
    kind: Option<Option<VolumeConfigurationType>>,
    source: Seq<char>,
    target: Seq<char>,
)
    requires
        0 <= i <= attrs.len(),
        forall|j: int| 0 <= j < attrs.len() ==> volume_attr_key((#[trigger] attrs[j]).0),
        distinct_keys(attrs),
    ensures
        dec_volume_entries(
            path,
            enc_attr_entries(attrs).skip(i) + tail,
            kind,
            Option::Some(source),
            Option::Some(target),
            attrs.subrange(0, i),
        ) == dec_volume_entries(path, tail, kind, Option::Some(source), Option::Some(target), attrs),
    decreases attrs.len() - i,
{
    if i == attrs.len() {
        assert(enc_attr_entries(attrs).skip(i) + tail =~= tail);
        assert(attrs.subrange(0, i) =~= attrs);
    } else {
        let es = enc_attr_entries(attrs).skip(i) + tail;
        assert(es[0] == (YamlV::Str(attrs[i].0), attrs[i].1));
        let ks = attrs[i].0;
        lemma_volume_attr_key_distinct(ks);
        assert(!has_key(attrs.subrange(0, i), ks)) by {
            assert forall|j: int| 0 <= j < i implies attrs.subrange(0, i)[j].0 != ks by {
                assert(attrs.subrange(0, i)[j] == attrs[j]);
            }
        }
        assert(es.drop_first() =~= enc_attr_entries(attrs).skip(i + 1) + tail);
        assert(attrs.subrange(0, i).push((ks, attrs[i].1)) =~= attrs.subrange(0, i + 1));
        lemma_rt_vol_attrs(path, attrs, i + 1, tail, kind, source, target);
    }
}

proof fn lemma_rt_volume(path: Seq<char>, v: VolumeV)
    requires
        wf_volume(v),
    ensures
        dec_volume_entries(
            path,
            enc_volume(v)->Obj_0,
            Option::None,
            Option::None,
            Option::None,
            Seq::empty(),
        ) == Ok::<VolumeV, DecodeErrorV>(v),
{
    reveal_strlit("type");
    reveal_strlit("source");
    reveal_strlit("target");
    reveal_strlit("bind");
    reveal_strlit("tmpfs");
    assert("type"@.len() == 4);
    assert("source"@.len() == 6);
    assert("target"@.len() == 6);
    assert("source"@[0] == 's');
    assert("target"@[0] == 't');
    assert("bind"@.len() == 4);
    assert("tmpfs"@.len() == 5);
    let es = enc_volume(v)->Obj_0;
    let st = seq![
        (YamlV::Str("source"@), YamlV::Str(v.source)),
        (YamlV::Str("target"@), YamlV::Str(v.target)),
    ];
    let kpart = enc_kind_entries(v.kind);
    let ea = enc_attr_entries(v.attrs);
    assert(es == kpart + st + ea);
    let none3: Option<Option<VolumeConfigurationType>> = Option::None;
    let kind0: Option<Option<VolumeConfigurationType>> = match v.kind {
        Option::Some(k) => Option::Some(Option::Some(k)),
        Option::None => Option::None,
    };
    let e: Seq<(Seq<char>, YamlV)> = Seq::empty();
    // Step through the `type` entry, if any, then `source` and `target`.
    let after_kind: Seq<(YamlV, YamlV)> = st + ea;
    match v.kind {
        Option::None => {
            assert(es =~= after_kind);
        },
        Option::Some(k) => {
            assert(kpart.len() == 1);
            assert(es[0] == kpart[0]);
            assert(es.drop_first() =~= after_kind);
            match k {
                VolumeConfigurationType::Bind => {
                    assert(kpart[0] == (YamlV::Str("type"@), YamlV::Str("bind"@)));
                },
                VolumeConfigurationType::Tmpfs => {
                    assert(kpart[0] == (YamlV::Str("type"@), YamlV::Str("tmpfs"@)));
                    assert("tmpfs"@ != "bind"@);
                },
            }
            assert(dec_volume_entries(path, es, none3, Option::None, Option::None, e)
                == dec_volume_entries(path, after_kind, kind0, Option::None, Option::None, e));
        },
    }
    assert(after_kind[0] == (YamlV::Str("source"@), YamlV::Str(v.source)));
    assert("source"@ != "type"@);
    let after_src = after_kind.drop_first();
    assert(dec_volume_entries(path, after_kind, kind0, Option::None, Option::None, e)
        == dec_volume_entries(path, after_src, kind0, Option::Some(v.source), Option::None, e));
    assert(after_src =~= seq![(YamlV::Str("target"@), YamlV::Str(v.target))] + ea);
    assert(after_src[0] == (YamlV::Str("target"@), YamlV::Str(v.target)));
    assert("target"@ != "type"@);
    assert("target"@ != "source"@);
    let after_tgt = after_src.drop_first();
    assert(dec_volume_entries(path, after_src, kind0, Option::Some(v.source), Option::None, e)
        == dec_volume_entries(
        path,
        after_tgt,
        kind0,
        Option::Some(v.source),
        Option::Some(v.target),
        e,
    ));
    assert(after_tgt =~= ea.skip(0) + Seq::<(YamlV, YamlV)>::empty());
    assert(v.attrs.subrange(0, 0) =~= e);
    lemma_rt_vol_attrs(path, v.attrs, 0, Seq::empty(), kind0, v.source, v.target);
    assert(dec_volume_entries(
        path,
        Seq::empty(),
        kind0,
        Option::Some(v.source),
        Option::Some(v.target),
        v.attrs,
    ) == Ok::<VolumeV, DecodeErrorV>(VolumeV {
        kind: v.kind,
        source: v.source,
        target: v.target,
        attrs: v.attrs,
    }));
    assert(VolumeV { kind: v.kind, source: v.source, target: v.target, attrs: v.attrs } =~= v);
}

proof fn lemma_rt_volumes(base: Seq<char>, vols: Seq<VolumeV>, i: int, idx: nat, acc: Seq<VolumeV>)
    requires
        0 <= i <= vols.len(),
        forall|j: int| 0 <= j < vols.len() ==> wf_volume(#[trigger] vols[j]),
    ensures
        dec_volumes(base, enc_volumes(vols).skip(i), idx, acc) == Ok::<Seq<VolumeV>, DecodeErrorV>(
            acc + vols.skip(i),
        ),
    decreases vols.len() - i,
{
    if i == vols.len() {
        assert(enc_volumes(vols).skip(i) =~= Seq::<YamlV>::empty());
        assert(acc + vols.skip(i) =~= acc);
    } else {
        let items = enc_volumes(vols).skip(i);
        assert(items[0] == enc_volume(vols[i]));
        lemma_rt_volume(vol_path(base, idx), vols[i]);
        assert(items.drop_first() =~= enc_volumes(vols).skip(i + 1));
        lemma_rt_volumes(base, vols, i + 1, idx + 1, acc.push(vols[i]));
        assert(acc.push(vols[i]) + vols.skip(i + 1) =~= acc + vols.skip(i));
    }
}

proof fn lemma_rt_svc_attrs(
    path: Seq<char>,
    attrs: Seq<(Seq<char>, YamlV)>,
    i: int,
    tail: Seq<(YamlV, YamlV)>,
    volumes: Option<Seq<VolumeV>>,
)
    requires
        0 <= i <= attrs.len(),
        forall|j: int| 0 <= j < attrs.len() ==> service_attr_key((#[trigger] attrs[j]).0),
        distinct_keys(attrs),
    ensures
        dec_service_entries(
            path,
            enc_attr_entries(attrs).skip(i) + tail,
            attrs.subrange(0, i),
            volumes,
        ) == dec_service_entries(path, tail, attrs, volumes),
    decreases attrs.len() - i,
{
    if i == attrs.len() {
        assert(enc_attr_entries(attrs).skip(i) + tail =~= tail);
        assert(attrs.subrange(0, i) =~= attrs);
    } else {
        let es = enc_attr_entries(attrs).skip(i) + tail;
        assert(es[0] == (YamlV::Str(attrs[i].0), attrs[i].1));
        let ks = attrs[i].0;
        lemma_service_attr_key_distinct(ks);
        assert(!has_key(attrs.subrange(0, i), ks)) by {
            assert forall|j: int| 0 <= j < i implies attrs.subrange(0, i)[j].0 != ks by {
                assert(attrs.subrange(0, i)[j] == attrs[j]);
            }
        }
        assert(es.drop_first() =~= enc_attr_entries(attrs).skip(i + 1) + tail);
        assert(attrs.subrange(0, i).push((ks, attrs[i].1)) =~= attrs.subrange(0, i + 1));
        lemma_rt_svc_attrs(path, attrs, i + 1, tail, volumes);
    }
}

proof fn lemma_rt_service(path: Seq<char>, s: ServiceV)
    requires
        wf_service(s),
    ensures
        dec_service_entries(path, enc_service(s)->Obj_0, Seq::empty(), Option::None)
            == Ok::<ServiceV, DecodeErrorV>(s),
{
    reveal_strlit("volumes");
    let es = enc_service(s)->Obj_0;
    let vp = enc_vol_entries(s.volumes);
    assert(es == enc_attr_entries(s.attrs) + vp);
    assert(es =~= enc_attr_entries(s.attrs).skip(0) + vp);
    assert(Seq::<(Seq<char>, YamlV)>::empty() =~= s.attrs.subrange(0, 0));
    lemma_rt_svc_attrs(path, s.attrs, 0, vp, Option::None);
    match s.volumes {
        Option::None => {
            assert(vp =~= Seq::<(YamlV, YamlV)>::empty());
            assert(dec_service_entries(path, vp, s.attrs, Option::None)
                == Ok::<ServiceV, DecodeErrorV>(ServiceV {
                attrs: s.attrs,
                volumes: Option::None,
            }));
            assert(ServiceV { attrs: s.attrs, volumes: Option::None } =~= s);
        },
        Option::Some(vs) => {
            assert(vp[0] == (YamlV::Str("volumes"@), YamlV::Arr(enc_volumes(vs))));
            assert(enc_volumes(vs).skip(0) =~= enc_volumes(vs));
            lemma_rt_volumes(path, vs, 0, 0, Seq::empty());
            assert(Seq::<VolumeV>::empty() + vs.skip(0) =~= vs);
            assert(dec_volumes(path, enc_volumes(vs), 0, Seq::empty())
                == Ok::<Seq<VolumeV>, DecodeErrorV>(vs));
            let rest = vp.drop_first();
            assert(dec_service_entries(path, vp, s.attrs, Option::None)
                == dec_service_entries(path, rest, s.attrs, Option::Some(vs)));
            assert(rest =~= Seq::<(YamlV, YamlV)>::empty());
            assert(dec_service_entries(path, rest, s.attrs, Option::Some(vs))
                == Ok::<ServiceV, DecodeErrorV>(ServiceV {
                attrs: s.attrs,
                volumes: Option::Some(vs),
            }));
            assert(ServiceV { attrs: s.attrs, volumes: Option::Some(vs) } =~= s);
        },
    }
}

proof fn lemma_rt_services(svcs: Seq<(Seq<char>, ServiceV)>, i: int, acc: Seq<(Seq<char>, ServiceV)>)
    requires
        0 <= i <= svcs.len(),
        forall|j: int| 0 <= j < svcs.len() ==> wf_service((#[trigger] svcs[j]).1),
        distinct_names(svcs),
        forall|j: int| i <= j < svcs.len() ==> !has_name(acc, (#[trigger] svcs[j]).0),
    ensures
        dec_services(enc_services(svcs).skip(i), acc) == Ok::<
            Seq<(Seq<char>, ServiceV)>,
            DecodeErrorV,
        >(acc + svcs.skip(i)),
    decreases svcs.len() - i,
{
    if i == svcs.len() {
        assert(enc_services(svcs).skip(i) =~= Seq::<(YamlV, YamlV)>::empty());
        assert(acc + svcs.skip(i) =~= acc);
    } else {
        let es = enc_services(svcs).skip(i);
        assert(es[0] == (YamlV::Str(svcs[i].0), enc_service(svcs[i].1)));
        lemma_rt_service(svc_path(svcs[i].0), svcs[i].1);
        assert(es.drop_first() =~= enc_services(svcs).skip(i + 1));
        let acc1 = acc.push((svcs[i].0, svcs[i].1));
        assert(acc1 == acc.push(svcs[i])) by {
            assert((svcs[i].0, svcs[i].1) == svcs[i]);
        }
        assert forall|j: int| i + 1 <= j < svcs.len() implies !has_name(acc1, (#[trigger] svcs[j]).0) by {
            assert(!has_name(acc, svcs[j].0));
            assert forall|m: int| 0 <= m < acc1.len() implies acc1[m].0 != svcs[j].0 by {
                if m < acc.len() {
                    assert(acc1[m] == acc[m]);
                } else {
                    assert(acc1[m] == svcs[i]);
                    assert(svcs[i].0 != svcs[j].0);
                }
            }
        }
        lemma_rt_services(svcs, i + 1, acc1);
        assert(acc1 + svcs.skip(i + 1) =~= acc + svcs.skip(i));
    }
}

/// Round trip: re-encoding a well-formed descriptor and decoding the result
/// yields the same descriptor, with no field lost.
pub proof fn lemma_encode_decode_round_trip(c: ConfigV)
    requires
        wf_config(c),
    ensures
        dec_config(enc_config(c)) == Ok::<ConfigV, DecodeErrorV>(c),
{
    reveal_strlit("version");
    reveal_strlit("services");
    assert("version"@.len() == 7);
    assert("services"@.len() == 8);
    let es = enc_config(c)->Obj_0;
    assert(es[0] == (YamlV::Str("version"@), YamlV::Str(c.version)));
    let es1 = es.drop_first();
    assert(es1 =~= seq![(YamlV::Str("services"@), YamlV::Obj(enc_services(c.services)))]);
    assert(dec_config(enc_config(c)) == dec_config_entries(es, Option::None, Option::None));
    assert(dec_config_entries(es, Option::None, Option::None) == dec_config_entries(
        es1,
        Option::Some(c.version),
        Option::None,
    ));
    assert(es1[0] == (YamlV::Str("services"@), YamlV::Obj(enc_services(c.services))));
    assert("services"@ != "version"@);
    assert(enc_services(c.services).skip(0) =~= enc_services(c.services));
    lemma_rt_services(c.services, 0, Seq::empty());
    assert(Seq::<(Seq<char>, ServiceV)>::empty() + c.services.skip(0) =~= c.services);
    assert(dec_services(enc_services(c.services), Seq::empty()) == Ok::<
        Seq<(Seq<char>, ServiceV)>,
        DecodeErrorV,
    >(c.services));
    let es2 = es1.drop_first();
    assert(dec_config_entries(es1, Option::Some(c.version), Option::None) == dec_config_entries(
        es2,
        Option::Some(c.version),
        Option::Some(c.services),
    ));
    assert(es2 =~= Seq::<(YamlV, YamlV)>::empty());
    assert(dec_config_entries(es2, Option::Some(c.version), Option::Some(c.services)) == Ok::<
        ConfigV,
        DecodeErrorV,
    >(ConfigV { version: c.version, services: c.services }));
    assert(ConfigV { version: c.version, services: c.services } =~= c);
}

// ---------------------------------------------------------------------------
// Whatever decodes successfully is well formed.

proof fn lemma_push_key_wf(acc: Seq<(Seq<char>, YamlV)>, ks: Seq<char>, v: YamlV)
    requires
        distinct_keys(acc),
        !has_key(acc, ks),
    ensures
        distinct_keys(acc.push((ks, v))),
{
    let acc1 = acc.push((ks, v));
    assert forall|j1: int, j2: int| 0 <= j1 < j2 < acc1.len() implies (#[trigger] acc1[j1]).0 != (
    #[trigger] acc1[j2]).0 by {
        if j2 < acc.len() {
            assert(acc1[j1] == acc[j1]);
            assert(acc1[j2] == acc[j2]);
        } else {
            assert(acc1[j1] == acc[j1]);
            assert(acc1[j2] == (ks, v));
            assert(!(acc[j1].0 == ks));
        }
    }
}

proof fn lemma_dec_volume_wf(
    path: Seq<char>,
    entries: Seq<(YamlV, YamlV)>,
    kind: Option<Option<VolumeConfigurationType>>,
    source: Option<Seq<char>>,
    target: Option<Seq<char>>,
    acc: Seq<(Seq<char>, YamlV)>,
    v: VolumeV,
)
    requires
        dec_volume_entries(path, entries, kind, source, target, acc) == Ok::<
            VolumeV,
            DecodeErrorV,
        >(v),
        forall|j: int| 0 <= j < acc.len() ==> volume_attr_key((#[trigger] acc[j]).0),
        distinct_keys(acc),
    ensures
        wf_volume(v),
    decreases entries.len(),
{
    if entries.len() > 0 {
        let k = entries[0].0;
        let v0 = entries[0].1;
        let rest = entries.drop_first();
        match k {
            YamlV::Str(ks) => {
                if ks == "type"@ {
                    if kind is None {
                        match v0 {
                            YamlV::Str(tag) => {
                                if tag == "bind"@ {
                                    lemma_dec_volume_wf(
                                        path,
                                        rest,
                                        Option::Some(Option::Some(VolumeConfigurationType::Bind)),
                                        source,
                                        target,
                                        acc,
                                        v,
                                    );
                                } else if tag == "tmpfs"@ {
                                    lemma_dec_volume_wf(
                                        path,
                                        rest,
                                        Option::Some(Option::Some(VolumeConfigurationType::Tmpfs)),
                                        source,
                                        target,
                                        acc,
                                        v,
                                    );
                                }
                            },
                            _ => {},
                        }
                    }
                } else if ks == "source"@ {
                    if source is None {
                        match v0 {
                            YamlV::Str(sv) => {
                                lemma_dec_volume_wf(
                                    path,
                                    rest,
                                    kind,
                                    Option::Some(sv),
                                    target,
                                    acc,
                                    v,
                                );
                            },
                            _ => {},
                        }
                    }
                } else if ks == "target"@ {
                    if target is None {
                        match v0 {
                            YamlV::Str(tv) => {
                                lemma_dec_volume_wf(
                                    path,
                                    rest,
                                    kind,
                                    source,
                                    Option::Some(tv),
                                    acc,
                                    v,
                                );
                            },
                            _ => {},
                        }
                    }
                } else if volume_attr_key(ks) {
                    if !has_key(acc, ks) {
                        lemma_push_key_wf(acc, ks, v0);
                        lemma_dec_volume_wf(path, rest, kind, source, target, acc.push((ks, v0)), v);
                    }
                }
            },
            _ => {},
        }
    }
}

proof fn lemma_dec_volumes_wf(
    base: Seq<char>,
    items: Seq<YamlV>,
    idx: nat,
    acc: Seq<VolumeV>,
    vs: Seq<VolumeV>,
)
    requires
        dec_volumes(base, items, idx, acc) == Ok::<Seq<VolumeV>, DecodeErrorV>(vs),
        forall|j: int| 0 <= j < acc.len() ==> wf_volume(#[trigger] acc[j]),
    ensures
        forall|j: int| 0 <= j < vs.len() ==> wf_volume(#[trigger] vs[j]),
    decreases items.len(),
{
    if items.len() > 0 {
        match items[0] {
            YamlV::Obj(es) => {
                let r = dec_volume_entries(
                    vol_path(base, idx),
                    es,
                    Option::None,
                    Option::None,
                    Option::None,
                    Seq::empty(),
                );
                match r {
                    Ok(vm) => {
                        lemma_dec_volume_wf(
                            vol_path(base, idx),
                            es,
                            Option::None,
                            Option::None,
                            Option::None,
                            Seq::empty(),
                            vm,
                        );
                        assert forall|j: int| 0 <= j < acc.push(vm).len() implies wf_volume(
                            #[trigger] acc.push(vm)[j],
                        ) by {
                            if j < acc.len() {
                                assert(acc.push(vm)[j] == acc[j]);
                            } else {
                                assert(acc.push(vm)[j] == vm);
                            }
                        }
                        lemma_dec_volumes_wf(base, items.drop_first(), idx + 1, acc.push(vm), vs);
                    },
                    Err(_) => {},
                }
            },
            _ => {},
        }
    }
}

proof fn lemma_dec_service_wf(
    path: Seq<char>,
    entries: Seq<(YamlV, YamlV)>,
    attrs: Seq<(Seq<char>, YamlV)>,
    volumes: Option<Seq<VolumeV>>,
    sv: ServiceV,
)
    requires
        dec_service_entries(path, entries, attrs, volumes) == Ok::<ServiceV, DecodeErrorV>(sv),
        forall|j: int| 0 <= j < attrs.len() ==> service_attr_key((#[trigger] attrs[j]).0),
        distinct_keys(attrs),
        match volumes {
            Option::Some(vs) => forall|j: int| 0 <= j < vs.len() ==> wf_volume(#[trigger] vs[j]),
            Option::None => true,
        },
    ensures
        wf_service(sv),
    decreases entries.len(),
{
    if entries.len() > 0 {
        let k = entries[0].0;
        let v0 = entries[0].1;
        let rest = entries.drop_first();
        match k {
            YamlV::Str(ks) => {
                if ks == "volumes"@ {
                    if volumes is None {
                        match v0 {
                            YamlV::Arr(items) => {
                                match dec_volumes(path, items, 0, Seq::empty()) {
                                    Ok(vs) => {
                                        lemma_dec_volumes_wf(path, items, 0, Seq::empty(), vs);
                                        lemma_dec_service_wf(
                                            path,
                                            rest,
                                            attrs,
                                            Option::Some(vs),
                                            sv,
                                        );
                                    },
                                    Err(_) => {},
                                }
                            },
                            _ => {},
                        }
                    }
                } else if service_attr_key(ks) {
                    if !has_key(attrs, ks) {
                        lemma_push_key_wf(attrs, ks, v0);
                        lemma_dec_service_wf(path, rest, attrs.push((ks, v0)), volumes, sv);
                    }
                }
            },
            _ => {},
        }
    }
}

proof fn lemma_dec_services_wf(
    entries: Seq<(YamlV, YamlV)>,
    acc: Seq<(Seq<char>, ServiceV)>,
    svcs: Seq<(Seq<char>, ServiceV)>,
)
    requires
        dec_services(entries, acc) == Ok::<Seq<(Seq<char>, ServiceV)>, DecodeErrorV>(svcs),
        distinct_names(acc),
        forall|j: int| 0 <= j < acc.len() ==> wf_service((#[trigger] acc[j]).1),
    ensures
        distinct_names(svcs),
        forall|j: int| 0 <= j < svcs.len() ==> wf_service((#[trigger] svcs[j]).1),
    decreases entries.len(),
{
    if entries.len() > 0 {
        let k = entries[0].0;
        let v0 = entries[0].1;
        let rest = entries.drop_first();
        match k {
            YamlV::Str(name) => {
                if !has_name(acc, name) {
                    match v0 {
                        YamlV::Obj(es) => {
                            match dec_service_entries(
                                svc_path(name),
                                es,
                                Seq::empty(),
                                Option::None,
                            ) {
                                Ok(one) => {
                                    lemma_dec_service_wf(
                                        svc_path(name),
                                        es,
                                        Seq::empty(),
                                        Option::None,
                                        one,
                                    );
                                    let acc1 = acc.push((name, one));
                                    assert forall|j1: int, j2: int|
                                        0 <= j1 < j2 < acc1.len() implies (
                                    #[trigger] acc1[j1]).0 != (#[trigger] acc1[j2]).0 by {
                                        if j2 < acc.len() {
                                            assert(acc1[j1] == acc[j1]);
                                            assert(acc1[j2] == acc[j2]);
                                        } else {
                                            assert(acc1[j1] == acc[j1]);
                                            assert(acc1[j2] == (name, one));
                                            assert(!(acc[j1].0 == name));
                                        }
                                    }
                                    assert forall|j: int| 0 <= j < acc1.len() implies wf_service(
                                        (#[trigger] acc1[j]).1,
                                    ) by {
                                        if j < acc.len() {
                                            assert(acc1[j] == acc[j]);
                                        } else {
                                            assert(acc1[j] == (name, one));
                                        }
                                    }
                                    lemma_dec_services_wf(rest, acc1, svcs);
                                },
                                Err(_) => {},
                            }
                        },
                        _ => {},
                    }
                }
            },
            _ => {},
        }
    }
}

/// Whatever the decoder accepts is well formed: known keys only, no duplicate
/// keys, and unique service names.
pub proof fn lemma_decode_ok_wf(y: YamlV, c: ConfigV)
    requires
        dec_config(y) == Ok::<ConfigV, DecodeErrorV>(c),
    ensures
        wf_config(c),
{
    match y {
        YamlV::Obj(es) => {
            lemma_dec_config_entries_wf(es, Option::None, Option::None, c);
        },
        _ => {},
    }
}

proof fn lemma_dec_config_entries_wf(
    entries: Seq<(YamlV, YamlV)>,
    version: Option<Seq<char>>,
    services: Option<Seq<(Seq<char>, ServiceV)>>,
    c: ConfigV,
)
    requires
        dec_config_entries(entries, version, services) == Ok::<ConfigV, DecodeErrorV>(c),
        match services {
            Option::Some(svcs) => distinct_names(svcs) && forall|j: int|
                0 <= j < svcs.len() ==> wf_service((#[trigger] svcs[j]).1),
            Option::None => true,
        },
    ensures
        wf_config(c),
    decreases entries.len(),
{
    if entries.len() > 0 {
        let k = entries[0].0;
        let v0 = entries[0].1;
        let rest = entries.drop_first();
        match k {
            YamlV::Str(ks) => {
                if ks == "version"@ {
                    if version is None {
                        match v0 {
                            YamlV::Str(sv) => {
                                lemma_dec_config_entries_wf(rest, Option::Some(sv), services, c);
                            },
                            _ => {},
                        }
                    }
                } else if ks == "services"@ {
                    if services is None {
                        match v0 {
                            YamlV::Obj(es) => {
                                match dec_services(es, Seq::empty()) {
                                    Ok(svcs) => {
                                        lemma_dec_services_wf(es, Seq::empty(), svcs);
                                        lemma_dec_config_entries_wf(
                                            rest,
                                            version,
                                            Option::Some(svcs),
                                            c,
                                        );
                                    },
                                    Err(_) => {},
                                }
                            },
                            _ => {},
                        }
                    }
                }
            },
            _ => {},
        }
    }
}

/// Round trip from any accepted input: a descriptor decoded from some tree
/// decodes to itself again from its own re-encoding.
pub proof fn lemma_decode_encode_decode(y: YamlV, c: ConfigV)
    requires
        dec_config(y) == Ok::<ConfigV, DecodeErrorV>(c),
    ensures
        dec_config(enc_config(c)) == Ok::<ConfigV, DecodeErrorV>(c),
{
    lemma_decode_ok_wf(y, c);
    lemma_encode_decode_round_trip(c);
}

// ---------------------------------------------------------------------------
// The executable encoder.

fn encode_volume(v: &VolumeConfigurationMap) -> (y: Yaml)
    ensures
        yaml_view(y) == enc_volume(v.deep_view()),
{
    let ghost target = enc_volume(v.deep_view())->Obj_0;
    let mut out: Vec<(Yaml, Yaml)> = Vec::new();
    match v.kind {
        Option::Some(VolumeConfigurationType::Bind) => {
            out.push((Yaml::Str(String::from_str("type")), Yaml::Str(String::from_str("bind"))));
        },
        Option::Some(VolumeConfigurationType::Tmpfs) => {
            out.push((Yaml::Str(String::from_str("type")), Yaml::Str(String::from_str("tmpfs"))));
        },
        Option::None => {},
    }
    out.push((Yaml::Str(String::from_str("source")), Yaml::Str(v.source.clone())));
    out.push((Yaml::Str(String::from_str("target")), Yaml::Str(v.target.clone())));
    let ghost base = out@.len() as int;
    proof {
        assert(target.len() == base + v.attrs@.len());
        assert forall|j: int| 0 <= j < base implies (
            yaml_view(out@[j].0),
            yaml_view(out@[j].1),
        ) == target[j] by {
            assert(enc_kind_entries(v.deep_view().kind).len() == base - 2);
        }
    }
    let mut i: usize = 0;
    while i < v.attrs.len()
        invariant
            i <= v.attrs@.len(),
            out@.len() == base + i,
            target == enc_volume(v.deep_view())->Obj_0,
            target.len() == base + v.attrs@.len(),
            forall|j: int| 0 <= j < base + i ==> (
                yaml_view(#[trigger] out@[j].0),
                yaml_view(out@[j].1),
            ) == target[j],
        decreases v.attrs@.len() - i,
    {
        let kv = &v.attrs[i];
        out.push((Yaml::Str(kv.0.clone()), kv.1.clone()));
        proof {
            assert(attr_deep_seq(v.attrs@)[i as int] == (v.attrs@[i as int].0@, yaml_view(
                v.attrs@[i as int].1,
            )));
            assert(target[base + i] == (
                YamlV::Str(attr_deep_seq(v.attrs@)[i as int].0),
                attr_deep_seq(v.attrs@)[i as int].1,
            ));
        }
        i += 1;
    }
    proof {
        let a = yaml_view(Yaml::Obj(out))->Obj_0;
        assert forall|j: int| 0 <= j < a.len() implies a[j] == target[j] by {
            assert(a[j] == (yaml_view(out@[j].0), yaml_view(out@[j].1)));
        }
        assert(a =~= target);
    }
    Yaml::Obj(out)
}

fn encode_service(sv: &ServiceConfigurationMap) -> (y: Yaml)
    ensures
        yaml_view(y) == enc_service(sv.deep_view()),
{
    let ghost target = enc_service(sv.deep_view())->Obj_0;
    let mut out: Vec<(Yaml, Yaml)> = Vec::new();
    let mut i: usize = 0;
    while i < sv.attrs.len()
        invariant
            i <= sv.attrs@.len(),
            out@.len() == i,
            target == enc_service(sv.deep_view())->Obj_0,
            forall|j: int| 0 <= j < i ==> (
                yaml_view(#[trigger] out@[j].0),
                yaml_view(out@[j].1),
            ) == target[j],
        decreases sv.attrs@.len() - i,
    {
        let kv = &sv.attrs[i];
        out.push((Yaml::Str(kv.0.clone()), kv.1.clone()));
        proof {
            assert(attr_deep_seq(sv.attrs@)[i as int] == (sv.attrs@[i as int].0@, yaml_view(
                sv.attrs@[i as int].1,
            )));
            assert(target[i as int] == (
                YamlV::Str(attr_deep_seq(sv.attrs@)[i as int].0),
                attr_deep_seq(sv.attrs@)[i as int].1,
            ));
        }
        i += 1;
    }
    match &sv.volumes {
        Option::None => {},
        Option::Some(vols) => {
            let mut items: Vec<Yaml> = Vec::new();
            let mut j: usize = 0;
            while j < vols.len()
                invariant
                    j <= vols@.len(),
                    items@.len() == j,
                    forall|m: int| 0 <= m < j ==> yaml_view(#[trigger] items@[m]) == enc_volumes(
                        vols_deep_seq(vols@),
                    )[m],
                decreases vols@.len() - j,
            {
                items.push(encode_volume(&vols[j]));
                proof {
                    assert(enc_volumes(vols_deep_seq(vols@))[j as int] == enc_volume(
                        vols_deep_seq(vols@)[j as int],
                    ));
                }
                j += 1;
            }
            proof {
                let a = yaml_view(Yaml::Arr(items))->Arr_0;
                assert forall|m: int| 0 <= m < a.len() implies a[m] == enc_volumes(
                    vols_deep_seq(vols@),
                )[m] by {
                    assert(a[m] == yaml_view(items@[m]));
                }
                assert(a =~= enc_volumes(vols_deep_seq(vols@)));
            }
            let arr = Yaml::Arr(items);
            out.push((Yaml::Str(String::from_str("volumes")), arr));
            proof {
                assert(target[sv.attrs@.len() as int] == (
                    YamlV::Str("volumes"@),
                    YamlV::Arr(enc_volumes(vols_deep_seq(vols@))),
                ));
            }
        },
    }
    proof {
        let a = yaml_view(Yaml::Obj(out))->Obj_0;
        assert(a.len() == target.len());
        assert forall|j: int| 0 <= j < a.len() implies a[j] == target[j] by {
            assert(a[j] == (yaml_view(out@[j].0), yaml_view(out@[j].1)));
        }
        assert(a =~= target);
    }
    Yaml::Obj(out)
}

/// Re-encodes a descriptor as a value tree: a pure projection, exactly
/// [`enc_config`] on the descriptor's abstraction.
pub fn encode_config(c: &Configuration) -> (y: Yaml)
    ensures
        yaml_view(y) == enc_config(c.deep_view()),
{
    let mut svc_entries: Vec<(Yaml, Yaml)> = Vec::new();
    let mut i: usize = 0;
    while i < c.services.len()
        invariant
            i <= c.services@.len(),
            svc_entries@.len() == i,
            forall|j: int| 0 <= j < i ==> (
                yaml_view(#[trigger] svc_entries@[j].0),
                yaml_view(svc_entries@[j].1),
            ) == enc_services(svc_deep_seq(c.services@))[j],
        decreases c.services@.len() - i,
    {
        let pair = &c.services[i];
        svc_entries.push((Yaml::Str(pair.0.clone()), encode_service(&pair.1)));
        proof {
            assert(svc_deep_seq(c.services@)[i as int] == (c.services@[i as int].0@, c.services@[
                i as int
            ].1.deep_view()));
            assert(enc_services(svc_deep_seq(c.services@))[i as int] == (
                YamlV::Str(svc_deep_seq(c.services@)[i as int].0),
                enc_service(svc_deep_seq(c.services@)[i as int].1),
            ));
        }
        i += 1;
    }
    let services_obj = Yaml::Obj(svc_entries);
    proof {
        let a = yaml_view(services_obj)->Obj_0;
        assert forall|j: int| 0 <= j < a.len() implies a[j] == enc_services(
            svc_deep_seq(c.services@),
        )[j] by {
            assert(a[j] == (yaml_view(svc_entries@[j].0), yaml_view(svc_entries@[j].1)));
        }
        assert(a =~= enc_services(svc_deep_seq(c.services@)));
    }
    let mut out: Vec<(Yaml, Yaml)> = Vec::new();
    out.push((Yaml::Str(String::from_str("version")), Yaml::Str(c.version.clone())));
    out.push((Yaml::Str(String::from_str("services")), services_obj));
    proof {
        let a = yaml_view(Yaml::Obj(out))->Obj_0;
        let target = enc_config(c.deep_view())->Obj_0;
        assert(a.len() == 2);
        assert(a[0] == (yaml_view(out@[0].0), yaml_view(out@[0].1)));
        assert(a[1] == (yaml_view(out@[1].0), yaml_view(out@[1].1)));
        assert(a =~= target);
    }
    Yaml::Obj(out)
}

/// The phrase for each decode failure reason.
pub open spec fn reason_text(r: DecodeReason) -> Seq<char> {
    match r {
        DecodeReason::UnknownField => "unknown field"@,
        DecodeReason::MissingField => "missing required field"@,
        DecodeReason::DuplicateField => "duplicated field"@,
        DecodeReason::ExpectedText => "expected a text value"@,
        DecodeReason::ExpectedTable => "expected a table"@,
        DecodeReason::ExpectedList => "expected a list"@,
        DecodeReason::KeyNotText => "table key is not text"@,
        DecodeReason::UnknownVolumeKind => "unknown volume type, expected bind or tmpfs"@,
    }
}

/// The message of a decode failure: the phrase, then the location.
pub open spec fn decode_error_text(e: DecodeErrorV) -> Seq<char> {
    reason_text(e.reason) + " at '"@ + e.location + "'"@
}

impl DecodeError {
    /// The failure as one line of text.
    pub fn message(&self) -> (m: String)
        ensures
            m@ == decode_error_text(self.deep_view()),
    {
        let phrase: &'static str = match self.reason {
            DecodeReason::UnknownField => "unknown field",
            DecodeReason::MissingField => "missing required field",
            DecodeReason::DuplicateField => "duplicated field",
            DecodeReason::ExpectedText => "expected a text value",
            DecodeReason::ExpectedTable => "expected a table",
            DecodeReason::ExpectedList => "expected a list",
            DecodeReason::KeyNotText => "table key is not text",
            DecodeReason::UnknownVolumeKind => "unknown volume type, expected bind or tmpfs",
        };
        String::from_str(phrase).concat(" at '").concat(self.location.as_str()).concat("'")
    }
}

// ---------------------------------------------------------------------------
// The closed-world law: an unknown field anywhere is rejected.

/// A volume table entry whose key belongs to the closed volume field set.
/// A non-text key is not an unknown field (it fails decode for another
/// reason).
pub open spec fn vol_key_known(e: (YamlV, YamlV)) -> bool {
    match e.0 {
        YamlV::Str(ks) => ks == "type"@ || ks == "source"@ || ks == "target"@ || volume_attr_key(
            ks,
        ),
        _ => true,
    }
}

/// A volume list item free of unknown fields.
pub open spec fn vol_item_ok(it: YamlV) -> bool {
    match it {
        YamlV::Obj(ves) => forall|i: int| 0 <= i < ves.len() ==> vol_key_known(#[trigger] ves[i]),
        _ => true,
    }
}

/// A service table entry free of unknown fields, at its own level and inside
/// its volume list.
pub open spec fn svc_entry_ok(e: (YamlV, YamlV)) -> bool {
    match e.0 {
        YamlV::Str(ks) => if ks == "volumes"@ {
            match e.1 {
                YamlV::Arr(items) => forall|j: int| 0 <= j < items.len() ==> vol_item_ok(
                    #[trigger] items[j],
                ),
                _ => true,
            }
        } else {
            service_attr_key(ks)
        },
        _ => true,
    }
}

/// A services table entry free of unknown fields inside its service table.
pub open spec fn svc_ok(e: (YamlV, YamlV)) -> bool {
    match e.1 {
        YamlV::Obj(sentries) => forall|m: int| 0 <= m < sentries.len() ==> svc_entry_ok(
            #[trigger] sentries[m],
        ),
        _ => true,
    }
}

/// A top-level entry free of unknown fields, at its own level and below.
pub open spec fn doc_key_ok(e: (YamlV, YamlV)) -> bool {
    match e.0 {
        YamlV::Str(ks) => if ks == "services"@ {
            match e.1 {
                YamlV::Obj(ses) => forall|k: int| 0 <= k < ses.len() ==> svc_ok(#[trigger] ses[k]),
                _ => true,
            }
        } else {
            ks == "version"@
        },
        _ => true,
    }
}

/// A document with an unknown field at some nesting level.
pub open spec fn doc_has_unknown_field(y: YamlV) -> bool {
    match y {
        YamlV::Obj(es) => exists|i: int| 0 <= i < es.len() && !doc_key_ok(#[trigger] es[i]),
        _ => false,
    }
}

proof fn lemma_dec_vol_entries_known(
    path: Seq<char>,
    entries: Seq<(YamlV, YamlV)>,
    kind: Option<Option<VolumeConfigurationType>>,
    source: Option<Seq<char>>,
    target: Option<Seq<char>>,
    acc: Seq<(Seq<char>, YamlV)>,
    v: VolumeV,
)
    requires
        dec_volume_entries(path, entries, kind, source, target, acc) == Ok::<
            VolumeV,
            DecodeErrorV,
        >(v),
    ensures
        forall|i: int| 0 <= i < entries.len() ==> vol_key_known(#[trigger] entries[i]),
    decreases entries.len(),
{
    if entries.len() > 0 {
        let k = entries[0].0;
        let v0 = entries[0].1;
        let rest = entries.drop_first();
        match k {
            YamlV::Str(ks) => {
                if ks == "type"@ {
                    if kind is None {
                        match v0 {
                            YamlV::Str(tag) => {
                                if tag == "bind"@ {
                                    lemma_dec_vol_entries_known(
                                        path,
                                        rest,
                                        Option::Some(Option::Some(VolumeConfigurationType::Bind)),
                                        source,
                                        target,
                                        acc,
                                        v,
                                    );
                                } else if tag == "tmpfs"@ {
                                    lemma_dec_vol_entries_known(
                                        path,
                                        rest,
                                        Option::Some(Option::Some(VolumeConfigurationType::Tmpfs)),
                                        source,
                                        target,
                                        acc,
                                        v,
                                    );
                                }
                            },
                            _ => {},
                        }
                    }
                } else if ks == "source"@ {
                    if source is None {
                        match v0 {
                            YamlV::Str(sv) => {
                                lemma_dec_vol_entries_known(
                                    path,
                                    rest,
                                    kind,
                                    Option::Some(sv),
                                    target,
                                    acc,
                                    v,
                                );
                            },
                            _ => {},
                        }
                    }
                } else if ks == "target"@ {
                    if target is None {
                        match v0 {
                            YamlV::Str(tv) => {
                                lemma_dec_vol_entries_known(
                                    path,
                                    rest,
                                    kind,
                                    source,
                                    Option::Some(tv),
                                    acc,
                                    v,
                                );
                            },
                            _ => {},
                        }
                    }
                } else if volume_attr_key(ks) {
                    if !has_key(acc, ks) {
                        lemma_dec_vol_entries_known(
                            path,
                            rest,
                            kind,
                            source,
                            target,
                            acc.push((ks, v0)),
                            v,
                        );
                    }
                }
            },
            _ => {},
        }
        assert forall|i: int| 0 <= i < entries.len() implies vol_key_known(
            #[trigger] entries[i],
        ) by {
            if i > 0 {
                assert(entries[i] == rest[i - 1]);
            }
        }
    }
}

proof fn lemma_dec_volumes_known(
    base: Seq<char>,
    items: Seq<YamlV>,
    idx: nat,
    acc: Seq<VolumeV>,
    vs: Seq<VolumeV>,
)
    requires
        dec_volumes(base, items, idx, acc) == Ok::<Seq<VolumeV>, DecodeErrorV>(vs),
    ensures
        forall|j: int| 0 <= j < items.len() ==> vol_item_ok(#[trigger] items[j]),
    decreases items.len(),
{
    if items.len() > 0 {
        match items[0] {
            YamlV::Obj(es) => {
                let r = dec_volume_entries(
                    vol_path(base, idx),
                    es,
                    Option::None,
                    Option::None,
                    Option::None,
                    Seq::empty(),
                );
                match r {
                    Ok(vm) => {
                        lemma_dec_vol_entries_known(
                            vol_path(base, idx),
                            es,
                            Option::None,
                            Option::None,
                            Option::None,
                            Seq::empty(),
                            vm,
                        );
                        lemma_dec_volumes_known(base, items.drop_first(), idx + 1, acc.push(vm), vs);
                    },
                    Err(_) => {},
                }
            },
            _ => {},
        }
        assert forall|j: int| 0 <= j < items.len() implies vol_item_ok(#[trigger] items[j]) by {
            if j > 0 {
                assert(items[j] == items.drop_first()[j - 1]);
            }
        }
    }
}

proof fn lemma_dec_svc_entries_known(
    path: Seq<char>,
    entries: Seq<(YamlV, YamlV)>,
    attrs: Seq<(Seq<char>, YamlV)>,
    volumes: Option<Seq<VolumeV>>,
    sv: ServiceV,
)
    requires
        dec_service_entries(path, entries, attrs, volumes) == Ok::<ServiceV, DecodeErrorV>(sv),
    ensures
        forall|m: int| 0 <= m < entries.len() ==> svc_entry_ok(#[trigger] entries[m]),
    decreases entries.len(),
{
    if entries.len() > 0 {
        let k = entries[0].0;
        let v0 = entries[0].1;
        let rest = entries.drop_first();
        match k {
            YamlV::Str(ks) => {
                if ks == "volumes"@ {
                    if volumes is None {
                        match v0 {
                            YamlV::Arr(items) => {
                                match dec_volumes(path, items, 0, Seq::empty()) {
                                    Ok(vs) => {
                                        lemma_dec_volumes_known(path, items, 0, Seq::empty(), vs);
                                        lemma_dec_svc_entries_known(
                                            path,
                                            rest,
                                            attrs,
                                            Option::Some(vs),
                                            sv,
                                        );
                                    },
                                    Err(_) => {},
                                }
                            },
                            _ => {},
                        }
                    }
                } else if service_attr_key(ks) {
                    if !has_key(attrs, ks) {
                        lemma_dec_svc_entries_known(path, rest, attrs.push((ks, v0)), volumes, sv);
                    }
                }
            },
            _ => {},
        }
        assert forall|m: int| 0 <= m < entries.len() implies svc_entry_ok(
            #[trigger] entries[m],
        ) by {
            if m > 0 {
                assert(entries[m] == rest[m - 1]);
            }
        }
    }
}

proof fn lemma_dec_services_known(
    entries: Seq<(YamlV, YamlV)>,
    acc: Seq<(Seq<char>, ServiceV)>,
    svcs: Seq<(Seq<char>, ServiceV)>,
)
    requires
        dec_services(entries, acc) == Ok::<Seq<(Seq<char>, ServiceV)>, DecodeErrorV>(svcs),
    ensures
        forall|k: int| 0 <= k < entries.len() ==> svc_ok(#[trigger] entries[k]),
    decreases entries.len(),
{
    if entries.len() > 0 {
        let k = entries[0].0;
        let v0 = entries[0].1;
        let rest = entries.drop_first();
        match k {
            YamlV::Str(name) => {
                if !has_name(acc, name) {
                    match v0 {
                        YamlV::Obj(es) => {
                            match dec_service_entries(
                                svc_path(name),
                                es,
                                Seq::empty(),
                                Option::None,
                            ) {
                                Ok(one) => {
                                    lemma_dec_svc_entries_known(
                                        svc_path(name),
                                        es,
                                        Seq::empty(),
                                        Option::None,
                                        one,
                                    );
                                    lemma_dec_services_known(rest, acc.push((name, one)), svcs);
                                },
                                Err(_) => {},
                            }
                        },
                        _ => {},
                    }
                }
            },
            _ => {},
        }
        assert forall|k2: int| 0 <= k2 < entries.len() implies svc_ok(#[trigger] entries[k2]) by {
            if k2 > 0 {
                assert(entries[k2] == rest[k2 - 1]);
            }
        }
    }
}

proof fn lemma_dec_config_entries_known(
    entries: Seq<(YamlV, YamlV)>,
    version: Option<Seq<char>>,
    services: Option<Seq<(Seq<char>, ServiceV)>>,
    c: ConfigV,
)
    requires
        dec_config_entries(entries, version, services) == Ok::<ConfigV, DecodeErrorV>(c),
    ensures
        forall|i: int| 0 <= i < entries.len() ==> doc_key_ok(#[trigger] entries[i]),
    decreases entries.len(),
{
    if entries.len() > 0 {
        let k = entries[0].0;
        let v0 = entries[0].1;
        let rest = entries.drop_first();
        match k {
            YamlV::Str(ks) => {
                if ks == "version"@ {
                    if version is None {
                        match v0 {
                            YamlV::Str(sv) => {
                                lemma_dec_config_entries_known(rest, Option::Some(sv), services, c);
                            },
                            _ => {},
                        }
                    }
                } else if ks == "services"@ {
                    if services is None {
                        match v0 {
                            YamlV::Obj(es) => {
                                match dec_services(es, Seq::empty()) {
                                    Ok(svcs) => {
                                        lemma_dec_services_known(es, Seq::empty(), svcs);
                                        lemma_dec_config_entries_known(
                                            rest,
                                            version,
                                            Option::Some(svcs),
                                            c,
                                        );
                                    },
                                    Err(_) => {},
                                }
                            },
                            _ => {},
                        }
                    }
                }
            },
            _ => {},
        }
        assert forall|i: int| 0 <= i < entries.len() implies doc_key_ok(#[trigger] entries[i]) by {
            if i > 0 {
                assert(entries[i] == rest[i - 1]);
            }
        }
    }
}

/// The closed-world law: a document with an unknown field at any nesting
/// level never decodes; the decoder reports a failure, and the exact contract
/// of [`dec_config`] pins its location down.
pub proof fn lemma_unknown_field_rejected(y: YamlV)
    requires
        doc_has_unknown_field(y),
    ensures
        dec_config(y) is Err,
{
    match y {
        YamlV::Obj(es) => {
            match dec_config_entries(es, Option::None, Option::None) {
                Ok(c) => {
                    lemma_dec_config_entries_known(es, Option::None, Option::None, c);
                },
                Err(_) => {},
            }
        },
        _ => {},
    }
}

} // verus!
