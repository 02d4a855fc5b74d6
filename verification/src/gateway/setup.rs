//! How a gateway configuration becomes the per-PLC registries, the PLC
//! addresses and the OPC-UA endpoint settings.
use vstd::prelude::*;
use vstd::utf8::encode_utf8;
use crate::error::text;
use crate::gateway::config::{resolved_plcs, GatewayConfig, PlcConfig};
use crate::gateway::error::Error;
use crate::gateway::registry::{
    entry_serves, first_bad_tag, lemma_first_bad_tag, tag_refusal, TagRegistry,
};
use crate::gateway::values::{
    bad_mode_text, bad_policy_text, mode_of, parse_security, policy_of, SecurityMode,
    SecurityPolicy,
};

verus! {

/// What `url::Url::parse` makes of a text: the path of the URL, or the text of
/// the parse error.
pub uninterp spec fn url_path_or_error(url: Seq<char>) -> Result<Seq<char>, Seq<char>>;

/// The path of an endpoint URL by `url::Url::parse` and `Url::path`, or the
/// text of the parse error. Trusted: the outcome is the named function of the
/// text; what the parser accepts and which path it gives is not stated here.
#[verifier::external_body]
fn endpoint_path(url: &str) -> (r: Result<String, String>)
    ensures
        match (r, url_path_or_error(url@)) {
            (Ok(p), Ok(q)) => p@ == q,
            (Err(e), Err(f)) => e@ == f,
            _ => false,
        },
{
    match url::Url::parse(url) {
        Ok(u) => Ok(u.path().to_string()),
        Err(e) => Err(e.to_string()),
    }
}

/// What the gateway runs with: one registry and one (address, poll interval in
/// milliseconds) pair per PLC, the security policy and mode, and the endpoint's
/// URL and path.
#[derive(Debug)]
pub struct GatewayPlan {
    pub registries: Vec<TagRegistry>,
    pub plc_addrs: Vec<(String, u64)>,
    pub policy: SecurityPolicy,
    pub mode: SecurityMode,
    pub endpoint_url: String,
    pub endpoint_path: String,
}

/// The message for a configuration without PLCs.
pub open spec fn no_plc_text() -> Seq<char> {
    "at least one PLC must be configured (use plc_addr + [[tags]] or [[plcs]])"@
}

/// The text of an invalid-tag error: `invalid tag '<tag>': <reason>`.
pub open spec fn invalid_tag_text(tag: Seq<char>, reason: Seq<char>) -> Seq<char> {
    "invalid tag '"@ + tag + "': "@ + reason
}

/// The index of the first PLC from `i` on with a tag that does not parse, or the
/// number of PLCs.
pub open spec fn first_bad_plc(plcs: Seq<PlcConfig>, i: int) -> int
    decreases plcs.len() - i,
{
    if i < 0 || i >= plcs.len() {
        plcs.len() as int
    } else if first_bad_tag(plcs[i].tags@, 0) < plcs[i].tags@.len() {
        i
    } else {
        first_bad_plc(plcs, i + 1)
    }
}

proof fn lemma_first_bad_plc(plcs: Seq<PlcConfig>, i: int)
    requires
        0 <= i <= plcs.len(),
    ensures
        i <= first_bad_plc(plcs, i) <= plcs.len(),
    decreases plcs.len() - i,
{
    if i < plcs.len() && !(first_bad_tag(plcs[i].tags@, 0) < plcs[i].tags@.len()) {
        lemma_first_bad_plc(plcs, i + 1);
    }
}

/// The message of the first refused tag of a PLC's tags.
pub open spec fn refused_tag_text(plc: PlcConfig) -> Seq<char> {
    let s = plc.tags@[first_bad_tag(plc.tags@, 0)];
    invalid_tag_text(s.tag@, tag_refusal(s))
}

/// The plan serves the PLC list: one registry serving each PLC's tags, and each
/// PLC's address and interval, in order.
pub open spec fn plan_serves(p: GatewayPlan, plcs: Seq<PlcConfig>) -> bool {
    &&& p.registries@.len() == plcs.len()
    &&& p.plc_addrs@.len() == plcs.len()
    &&& forall|i: int|
        0 <= i < plcs.len() ==> {
            &&& (#[trigger] p.registries@[i])@.len() == plcs[i].tags@.len()
            &&& forall|j: int|
                0 <= j < plcs[i].tags@.len() ==> entry_serves(
                    #[trigger] p.registries@[i]@[j],
                    plcs[i].tags@[j],
                )
            &&& p.plc_addrs@[i].0@ == plcs[i].addr@
            &&& p.plc_addrs@[i].1 == plcs[i].poll_interval_ms
        }
}

/// Turns a configuration into what the gateway runs with. In this order, it
/// refuses a configuration without PLCs, an unknown security policy or mode, a
/// tag that does not parse, and an endpoint that is not a URL.
pub fn plan_gateway(config: &GatewayConfig) -> (r: Result<GatewayPlan, Error>)
    ensures
        ({
            let plcs = resolved_plcs(*config);
            let pol = policy_of(encode_utf8(config.opc_security.policy@));
            let mo = mode_of(encode_utf8(config.opc_security.mode@));
            let k = first_bad_plc(plcs, 0);
            let url = url_path_or_error(config.opc_endpoint@);
            &&& plcs.len() == 0 ==> (r matches Err(Error::Config(m)) && m@ == no_plc_text())
            &&& plcs.len() > 0 && pol is None ==> (r matches Err(Error::Config(m)) && m@
                == bad_policy_text(config.opc_security.policy@))
            &&& plcs.len() > 0 && pol is Some && mo is None ==> (r matches Err(Error::Config(m))
                && m@ == bad_mode_text(config.opc_security.mode@))
            &&& plcs.len() > 0 && pol is Some && mo is Some && k < plcs.len() ==> (r matches Err(
                Error::Config(m),
            ) && m@ == refused_tag_text(plcs[k]))
            &&& plcs.len() > 0 && pol is Some && mo is Some && k == plcs.len() && url is Err ==> (
            r matches Err(Error::Config(m)) && m@ == "invalid opc_endpoint URL: "@ + url->Err_0)
            &&& plcs.len() > 0 && pol is Some && mo is Some && k == plcs.len() && url is Ok ==> (
            r matches Ok(p) && plan_serves(p, plcs) && p.policy == pol->Some_0 && p.mode
                == mo->Some_0 && p.endpoint_url@ == config.opc_endpoint@ && p.endpoint_path@
                == url->Ok_0)
        }),
{
    let plcs = config.plc_configs();
    if plcs.len() == 0 {
        return Err(
            Error::Config(
                text("at least one PLC must be configured (use plc_addr + [[tags]] or [[plcs]])"),
            ),
        );
    }
    let (policy, mode) = match parse_security(&config.opc_security) {
        Ok(x) => x,
        Err(e) => return Err(e),
    };
    let ghost want = resolved_plcs(*config);
    proof {
        lemma_first_bad_plc(want, 0);
    }
    let mut registries: Vec<TagRegistry> = Vec::new();
    let mut plc_addrs: Vec<(String, u64)> = Vec::new();
    let mut i: usize = 0;
    while i < plcs.len()
        invariant
            want == resolved_plcs(*config),
            policy_of(encode_utf8(config.opc_security.policy@)) == Some(policy),
            mode_of(encode_utf8(config.opc_security.mode@)) == Some(mode),
            plcs@.len() == want.len(),
            forall|j: int| 0 <= j < want.len() ==> crate::gateway::config::same_plc(
                #[trigger] plcs@[j],
                want[j],
            ),
            i <= want.len(),
            first_bad_plc(want, 0) == first_bad_plc(want, i as int),
            registries@.len() == i,
            plc_addrs@.len() == i,
            forall|j: int|
                0 <= j < i ==> {
                    &&& (#[trigger] registries@[j])@.len() == want[j].tags@.len()
                    &&& forall|t: int|
                        0 <= t < want[j].tags@.len() ==> entry_serves(
                            #[trigger] registries@[j]@[t],
                            want[j].tags@[t],
                        )
                    &&& plc_addrs@[j].0@ == want[j].addr@
                    &&& plc_addrs@[j].1 == want[j].poll_interval_ms
                },
        decreases want.len() - i,
    {
        let plc = &plcs[i];
        assert(plc.tags@ == want[i as int].tags@);
        proof {
            lemma_first_bad_tag(want[i as int].tags@, 0);
        }
        match TagRegistry::from_specs(plc.tags.as_slice()) {
            Ok(reg) => {
                registries.push(reg);
                plc_addrs.push((plc.addr.clone(), plc.poll_interval_ms));
                i = i + 1;
            },
            Err(e) => {
                let m = match e {
                    Error::InvalidTag { tag, reason } => {
                        let mut m = text("invalid tag '");
                        m.append(tag.as_str());
                        m.append("': ");
                        m.append(reason.as_str());
                        m
                    },
                    _ => String::new(),
                };
                assert(m@ =~= refused_tag_text(want[i as int]));
                return Err(Error::Config(m));
            },
        }
    }
    assert(first_bad_plc(want, i as int) == want.len());
    match endpoint_path(config.opc_endpoint.as_str()) {
        Err(e) => {
            let mut m = text("invalid opc_endpoint URL: ");
            m.append(e.as_str());
            Err(Error::Config(m))
        },
        Ok(path) => Ok(
            GatewayPlan {
                registries,
                plc_addrs,
                policy,
                mode,
                endpoint_url: config.opc_endpoint.clone(),
                endpoint_path: path,
            },
        ),
    }
}

} // verus!
