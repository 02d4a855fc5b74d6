//! The gateway's configuration: one PLC given by `plc_addr` and `tags`, or several
//! given by `plcs`, and the OPC-UA security settings.
use vstd::prelude::*;
use crate::error::text;

verus! {

/// The poll interval of a PLC whose configuration names none, in milliseconds.
pub fn default_poll_ms() -> (r: u64)
    ensures
        r == 1000,
{
    1000
}

/// The security policy used when none is configured: `None`.
pub fn default_security_policy() -> (r: String)
    ensures
        r@ == "None"@,
{
    text("None")
}

/// The message security mode used when none is configured: `None`.
pub fn default_security_mode() -> (r: String)
    ensures
        r@ == "None"@,
{
    text("None")
}

/// One tag to expose: its PLC address, its node name, and whether OPC-UA
/// clients may write it.
#[derive(Debug, Clone)]
pub struct TagSpec {
    pub tag: String,
    pub name: String,
    pub writable: bool,
}

/// One PLC data source.
#[derive(Debug, Clone)]
pub struct PlcConfig {
    pub addr: String,
    pub poll_interval_ms: u64,
    pub tags: Vec<TagSpec>,
}

/// OPC-UA security settings: the policy (`None`, `Basic128`, `Basic256`,
/// `Basic256Sha256`), the message mode (`None`, `Sign`, `SignAndEncrypt`), and
/// the paths of a PEM certificate and private key.
#[derive(Debug, Clone)]
pub struct OpcSecurityConfig {
    pub policy: String,
    pub mode: String,
    pub certificate: Option<String>,
    pub private_key: Option<String>,
}

impl Default for OpcSecurityConfig {
    /// Policy and mode `None`, no certificate, no key.
    fn default() -> (r: Self)
        ensures
            r.policy@ == "None"@,
            r.mode@ == "None"@,
            r.certificate is None,
            r.private_key is None,
    {
        OpcSecurityConfig {
            policy: default_security_policy(),
            mode: default_security_mode(),
            certificate: None,
            private_key: None,
        }
    }
}

/// The gateway configuration.
#[derive(Debug)]
pub struct GatewayConfig {
    pub opc_endpoint: String,
    pub poll_interval_ms: u64,
    pub plc_addr: Option<String>,
    pub tags: Option<Vec<TagSpec>>,
    pub plcs: Option<Vec<PlcConfig>>,
    pub opc_security: OpcSecurityConfig,
}

/// Two PLC configurations with the same address, interval and tags.
pub open spec fn same_plc(a: PlcConfig, b: PlcConfig) -> bool {
    a.addr == b.addr && a.poll_interval_ms == b.poll_interval_ms && a.tags@ == b.tags@
}

/// The PLC list a configuration stands for: `plcs` when it lists any; else the
/// legacy `plc_addr` with `tags` and the top-level interval, when both are
/// given; else nothing.
pub open spec fn resolved_plcs(c: GatewayConfig) -> Seq<PlcConfig> {
    let listed = match c.plcs {
        Some(p) => p@,
        None => Seq::<PlcConfig>::empty(),
    };
    if listed.len() == 0 && c.plc_addr is Some && c.tags is Some {
        seq![
            PlcConfig {
                addr: c.plc_addr->Some_0,
                poll_interval_ms: c.poll_interval_ms,
                tags: c.tags->Some_0,
            },
        ]
    } else {
        listed
    }
}

fn copy_tag(t: &TagSpec) -> (r: TagSpec)
    ensures
        r == *t,
{
    TagSpec { tag: t.tag.clone(), name: t.name.clone(), writable: t.writable }
}

fn copy_tags(v: &Vec<TagSpec>) -> (r: Vec<TagSpec>)
    ensures
        r@ == v@,
{
    let mut out: Vec<TagSpec> = Vec::new();
    let mut i: usize = 0;
    while i < v.len()
        invariant
            i <= v.len(),
            out@ == v@.subrange(0, i as int),
        decreases v.len() - i,
    {
        out.push(copy_tag(&v[i]));
        i = i + 1;
        assert(out@ =~= v@.subrange(0, i as int));
    }
    assert(v@.subrange(0, v.len() as int) =~= v@);
    out
}

fn copy_plc(p: &PlcConfig) -> (r: PlcConfig)
    ensures
        same_plc(r, *p),
{
    PlcConfig { addr: p.addr.clone(), poll_interval_ms: p.poll_interval_ms, tags: copy_tags(&p.tags) }
}

impl GatewayConfig {
    /// All PLC configurations: the `plcs` list, or, when it is absent or empty,
    /// the legacy single PLC if both its address and its tags are given.
    pub fn plc_configs(&self) -> (r: Vec<PlcConfig>)
        ensures
            r@.len() == resolved_plcs(*self).len(),
            forall|i: int| 0 <= i < r@.len() ==> same_plc(#[trigger] r@[i], resolved_plcs(*self)[i]),
    {
        let mut out: Vec<PlcConfig> = Vec::new();
        match &self.plcs {
            Some(list) => {
                let mut i: usize = 0;
                while i < list.len()
                    invariant
                        i <= list.len(),
                        out@.len() == i,
                        forall|j: int| 0 <= j < i ==> same_plc(#[trigger] out@[j], list@[j]),
                    decreases list.len() - i,
                {
                    out.push(copy_plc(&list[i]));
                    i = i + 1;
                }
            },
            None => {},
        }
        if out.len() == 0 {
            match (&self.plc_addr, &self.tags) {
                (Some(addr), Some(tags)) => {
                    out.push(
                        PlcConfig {
                            addr: addr.clone(),
                            poll_interval_ms: self.poll_interval_ms,
                            tags: copy_tags(tags),
                        },
                    );
                },
                _ => {},
            }
        }
        out
    }
}

} // verus!
