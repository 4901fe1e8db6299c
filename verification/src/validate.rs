//! Semantic validation of a decoded descriptor: the accepted version set and
//! the absolute-path rule for volume mount sources.  Both checks run locally,
//! before any external tool is involved, and the first violation in service
//! order is reported with its exact location.

use vstd::prelude::*;

use crate::schema::{ConfigV, Configuration, ServiceV, VolumeV};
use crate::text::{dec_digits, str_eq, usize_to_string};
use vstd::string::StrSliceExecFns;
use vstd::string::StringExecFns;

verus! {

/// The accepted version tags.
pub open spec fn valid_version(v: Seq<char>) -> bool {
    ||| v == "3"@
    ||| v == "3.0"@
    ||| v == "3.1"@
    ||| v == "3.2"@
    ||| v == "3.3"@
    ||| v == "3.4"@
    ||| v == "3.5"@
    ||| v == "3.6"@
}

/// An absolute path: begins with the path-root marker.
pub open spec fn absolute(s: Seq<char>) -> bool {
    s.len() > 0 && s[0] == '/'
}

/// The message for a rejected version tag.
pub open spec fn version_msg(v: Seq<char>) -> Seq<char> {
    "version '"@ + v + "' is invalid, expected 3 or 3.0 - 3.6"@
}

/// The message for a volume mount source that is not an absolute path.
pub open spec fn vol_src_msg(name: Seq<char>, i: nat, src: Seq<char>) -> Seq<char> {
    "services."@ + name + ".volumes["@ + dec_digits(i) + "].source '"@ + src
        + "' is not an absolute path"@
}

/// The first violation of the path rule among one service's volumes, from
/// index `i` on.
pub open spec fn first_vol_err_vols(name: Seq<char>, vols: Seq<VolumeV>, i: int) -> Option<
    Seq<char>,
>
    decreases vols.len() - i,
{
    if i < 0 || i >= vols.len() {
        Option::None
    } else if !absolute(vols[i].source) {
        Option::Some(vol_src_msg(name, i as nat, vols[i].source))
    } else {
        first_vol_err_vols(name, vols, i + 1)
    }
}

/// The first violation of the path rule over the services, from index `i` on.
pub open spec fn first_vol_err_svcs(svcs: Seq<(Seq<char>, ServiceV)>, i: int) -> Option<Seq<char>>
    decreases svcs.len() - i,
{
    if i < 0 || i >= svcs.len() {
        Option::None
    } else {
        let here = match svcs[i].1.volumes {
            Option::Some(vols) => first_vol_err_vols(svcs[i].0, vols, 0),
            Option::None => Option::None,
        };
        if here is Some {
            here
        } else {
            first_vol_err_svcs(svcs, i + 1)
        }
    }
}

/// What validating a descriptor yields: no message, or the first failure.
pub open spec fn validate_v(c: ConfigV) -> Option<Seq<char>> {
    if !valid_version(c.version) {
        Option::Some(version_msg(c.version))
    } else {
        first_vol_err_svcs(c.services, 0)
    }
}

fn is_valid_version(v: &str) -> (r: bool)
    ensures
        r == valid_version(v@),
{
    str_eq(v, "3") || str_eq(v, "3.0") || str_eq(v, "3.1") || str_eq(v, "3.2") || str_eq(v, "3.3")
        || str_eq(v, "3.4") || str_eq(v, "3.5") || str_eq(v, "3.6")
}

fn is_absolute(s: &str) -> (r: bool)
    ensures
        r == absolute(s@),
{
    if s.unicode_len() == 0 {
        false
    } else {
        s.get_char(0) == '/'
    }
}

fn version_msg_x(v: &str) -> (m: String)
    ensures
        m@ == version_msg(v@),
{
    String::from_str("version '").concat(v).concat("' is invalid, expected 3 or 3.0 - 3.6")
}

fn vol_src_msg_x(name: &str, i: usize, src: &str) -> (m: String)
    ensures
        m@ == vol_src_msg(name@, i as nat, src@),
{
    let num = usize_to_string(i);
    String::from_str("services.").concat(name).concat(".volumes[").concat(num.as_str()).concat(
        "].source '",
    ).concat(src).concat("' is not an absolute path")
}

fn validate_volumes(name: &str, vols: &Vec<crate::schema::VolumeConfigurationMap>, i: usize) -> (r:
    Option<String>)
    requires
        i <= vols@.len(),
    ensures
        (match r {
            Option::Some(m) => first_vol_err_vols(
                name@,
                crate::schema::vols_deep_seq(vols@),
                i as int,
            ) == Option::Some(m@),
            Option::None => first_vol_err_vols(name@, crate::schema::vols_deep_seq(vols@), i as int)
                is None,
        }),
    decreases vols@.len() - i,
{
    if i >= vols.len() {
        Option::None
    } else {
        let v = &vols[i];
        proof {
            assert(crate::schema::vols_deep_seq(vols@)[i as int] == vols@[i as int].deep_view());
        }
        if !is_absolute(v.source.as_str()) {
            Option::Some(vol_src_msg_x(name, i, v.source.as_str()))
        } else {
            validate_volumes(name, vols, i + 1)
        }
    }
}

fn validate_services(
    svcs: &Vec<(String, crate::schema::ServiceConfigurationMap)>,
    i: usize,
) -> (r: Option<String>)
    requires
        i <= svcs@.len(),
    ensures
        (match r {
            Option::Some(m) => first_vol_err_svcs(
                crate::schema::svc_deep_seq(svcs@),
                i as int,
            ) == Option::Some(m@),
            Option::None => first_vol_err_svcs(crate::schema::svc_deep_seq(svcs@), i as int)
                is None,
        }),
    decreases svcs@.len() - i,
{
    if i >= svcs.len() {
        Option::None
    } else {
        let pair = &svcs[i];
        proof {
            assert(crate::schema::svc_deep_seq(svcs@)[i as int] == (svcs@[i as int].0@, svcs@[
                i as int
            ].1.deep_view()));
        }
        let here: Option<String> = match &pair.1.volumes {
            Option::Some(vols) => validate_volumes(pair.0.as_str(), vols, 0),
            Option::None => Option::None,
        };
        match here {
            Option::Some(m) => Option::Some(m),
            Option::None => validate_services(svcs, i + 1),
        }
    }
}

/// Validates a decoded descriptor: the version tag must belong to the
/// accepted set and every volume mount source must be an absolute path.
/// Returns the first failure's message, exactly as [`validate_v`] states.
pub fn validate_config(config: &Configuration) -> (r: Result<(), String>)
    ensures
        (match validate_v(config.deep_view()) {
            Option::Some(m) => r matches Err(e) && e@ == m,
            Option::None => r is Ok,
        }),
{
    if !is_valid_version(config.version.as_str()) {
        Err(version_msg_x(config.version.as_str()))
    } else {
        match validate_services(&config.services, 0) {
            Option::Some(m) => Err(m),
            Option::None => Ok(()),
        }
    }
}

// ---------------------------------------------------------------------------
// The validation laws.

/// Every version tag outside the accepted set is rejected, and the message
/// carries the offending value.
pub proof fn lemma_version_gate_rejects(c: ConfigV)
    requires
        !valid_version(c.version),
    ensures
        validate_v(c) == Option::Some(version_msg(c.version)),
{
}

/// Every version tag inside the accepted set is let through: validation then
/// depends only on the volume path rule.
pub proof fn lemma_version_gate_passes(c: ConfigV)
    requires
        valid_version(c.version),
    ensures
        validate_v(c) == first_vol_err_svcs(c.services, 0),
{
}

/// One service's volumes all satisfy the path rule.
pub open spec fn service_sources_absolute(s: ServiceV) -> bool {
    match s.volumes {
        Option::Some(vols) => forall|j: int| 0 <= j < vols.len() ==> absolute(
            (#[trigger] vols[j]).source,
        ),
        Option::None => true,
    }
}

/// All services' volumes satisfy the path rule.
pub open spec fn all_sources_absolute(svcs: Seq<(Seq<char>, ServiceV)>) -> bool {
    forall|i: int| 0 <= i < svcs.len() ==> service_sources_absolute((#[trigger] svcs[i]).1)
}

proof fn lemma_first_vol_err_vols_none(name: Seq<char>, vols: Seq<VolumeV>, i: int)
    requires
        0 <= i <= vols.len(),
    ensures
        (first_vol_err_vols(name, vols, i) is None) <==> (forall|j: int|
            i <= j < vols.len() ==> absolute((#[trigger] vols[j]).source)),
    decreases vols.len() - i,
{
    if i < vols.len() {
        lemma_first_vol_err_vols_none(name, vols, i + 1);
    }
}

proof fn lemma_first_vol_err_svcs_none(svcs: Seq<(Seq<char>, ServiceV)>, i: int)
    requires
        0 <= i <= svcs.len(),
    ensures
        (first_vol_err_svcs(svcs, i) is None) <==> (forall|j: int|
            i <= j < svcs.len() ==> service_sources_absolute((#[trigger] svcs[j]).1)),
    decreases svcs.len() - i,
{
    if i < svcs.len() {
        lemma_first_vol_err_svcs_none(svcs, i + 1);
        match svcs[i].1.volumes {
            Option::Some(vols) => {
                lemma_first_vol_err_vols_none(svcs[i].0, vols, 0);
            },
            Option::None => {},
        }
    }
}

/// Validation accepts a descriptor exactly when the version tag is in the
/// accepted set and every volume mount source is absolute.
pub proof fn lemma_validate_ok_iff(c: ConfigV)
    ensures
        (validate_v(c) is None) <==> (valid_version(c.version) && all_sources_absolute(c.services)),
{
    lemma_first_vol_err_svcs_none(c.services, 0);
}

/// How many volume mounts one service has.
pub open spec fn svc_vol_count(svcs: Seq<(Seq<char>, ServiceV)>, k: int) -> int {
    match svcs[k].1.volumes {
        Option::Some(vols) => vols.len() as int,
        Option::None => 0,
    }
}

/// One volume mount source of one service, by indices.
pub open spec fn svc_vol_src(svcs: Seq<(Seq<char>, ServiceV)>, k: int, j: int) -> Seq<char> {
    match svcs[k].1.volumes {
        Option::Some(vols) => vols[j].source,
        Option::None => Seq::empty(),
    }
}

proof fn lemma_first_vol_err_vols_shape(name: Seq<char>, vols: Seq<VolumeV>, i: int)
    requires
        0 <= i <= vols.len(),
    ensures
        (match first_vol_err_vols(name, vols, i) {
            Option::Some(m) => exists|j: int|
                i <= j < vols.len() && !absolute((#[trigger] vols[j]).source) && m == vol_src_msg(
                    name,
                    j as nat,
                    vols[j].source,
                ),
            Option::None => true,
        }),
    decreases vols.len() - i,
{
    if i < vols.len() {
        lemma_first_vol_err_vols_shape(name, vols, i + 1);
    }
}

proof fn lemma_first_vol_err_svcs_shape(svcs: Seq<(Seq<char>, ServiceV)>, i: int)
    requires
        0 <= i <= svcs.len(),
    ensures
        (match first_vol_err_svcs(svcs, i) {
            Option::Some(m) => exists|k: int, j: int|
                i <= k < svcs.len() && 0 <= j < svc_vol_count(svcs, k) && !absolute(
                    #[trigger] svc_vol_src(svcs, k, j),
                ) && m == vol_src_msg(svcs[k].0, j as nat, svc_vol_src(svcs, k, j)),
            Option::None => true,
        }),
    decreases svcs.len() - i,
{
    if i < svcs.len() {
        lemma_first_vol_err_svcs_shape(svcs, i + 1);
        match svcs[i].1.volumes {
            Option::Some(vols) => {
                lemma_first_vol_err_vols_shape(svcs[i].0, vols, 0);
                match first_vol_err_vols(svcs[i].0, vols, 0) {
                    Option::Some(m) => {
                        let j = choose|j: int|
                            0 <= j < vols.len() && !absolute((#[trigger] vols[j]).source) && m
                                == vol_src_msg(svcs[i].0, j as nat, vols[j].source);
                        assert(svc_vol_src(svcs, i, j) == vols[j].source);
                    },
                    Option::None => {},
                }
            },
            Option::None => {},
        }
    }
}

/// When validation fails past the version gate, the message names an actual
/// offender: some service's volume whose source is not absolute, with its
/// exact `services.<name>.volumes[<index>].source` location and the value
/// verbatim.
pub proof fn lemma_volume_rule_message(c: ConfigV, m: Seq<char>)
    requires
        valid_version(c.version),
        validate_v(c) == Option::Some(m),
    ensures
        exists|k: int, j: int|
            0 <= k < c.services.len() && 0 <= j < svc_vol_count(c.services, k) && !absolute(
                #[trigger] svc_vol_src(c.services, k, j),
            ) && m == vol_src_msg(c.services[k].0, j as nat, svc_vol_src(c.services, k, j)),
{
    lemma_first_vol_err_svcs_shape(c.services, 0);
}

} // verus!
