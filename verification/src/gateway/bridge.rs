//! What the gateway does between OPC-UA and the PLC: which reads a poll makes,
//! whether and how a client's write goes to the PLC, and how a configuration
//! becomes the per-PLC registries and the endpoint settings.
use vstd::prelude::*;
use vstd::utf8::encode_utf8;
use crate::error::text;
use crate::gateway::config::{resolved_plcs, same_plc, GatewayConfig, PlcConfig};
use crate::gateway::error::Error;
use crate::gateway::registry::{
    first_bad_tag, first_node, node_text, tag_refusal, NodeId, TagEntry, TagRegistry,
};
use crate::gateway::values::{
    bad_mode_text, bad_policy_text, bytes_of, mode_of, parse_security, policy_of, unit_width,
    variant_to_bytes, transport_size_bytes, SecurityMode, SecurityPolicy, Variant,
};
use crate::proto::s7::header::TransportSize;

verus! {

/// The name a transport size is shown with in messages.
pub open spec fn transport_name(ts: TransportSize) -> &'static str {
    match ts {
        TransportSize::Bit => "Bit",
        TransportSize::Byte => "Byte",
        TransportSize::Char => "Char",
        TransportSize::Word => "Word",
        TransportSize::Int => "Int",
        TransportSize::DWord => "DWord",
        TransportSize::DInt => "DInt",
        TransportSize::Real => "Real",
        TransportSize::Date => "Date",
        TransportSize::Tod => "Tod",
        TransportSize::Time => "Time",
        TransportSize::S5Time => "S5Time",
        TransportSize::DtL => "DtL",
        TransportSize::Counter => "Counter",
        TransportSize::Timer => "Timer",
    }
}

fn transport_name_str(ts: TransportSize) -> (r: &'static str)
    ensures
        r@ == transport_name(ts)@,
{
    match ts {
        TransportSize::Bit => "Bit",
        TransportSize::Byte => "Byte",
        TransportSize::Char => "Char",
        TransportSize::Word => "Word",
        TransportSize::Int => "Int",
        TransportSize::DWord => "DWord",
        TransportSize::DInt => "DInt",
        TransportSize::Real => "Real",
        TransportSize::Date => "Date",
        TransportSize::Tod => "Tod",
        TransportSize::Time => "Time",
        TransportSize::S5Time => "S5Time",
        TransportSize::DtL => "DtL",
        TransportSize::Counter => "Counter",
        TransportSize::Timer => "Timer",
    }
}

/// One read of a poll: the entry's index, its DB, its byte offset, and the
/// number of bytes to read.
pub type PollRead = (usize, u16, u32, u16);

/// The reads of a poll over `entries`, in order: one per entry whose transport
/// size has a known width, of width times count bytes (as a 16-bit count).
pub open spec fn poll_plan(entries: Seq<TagEntry>) -> Seq<PollRead>
    decreases entries.len(),
{
    if entries.len() == 0 {
        Seq::empty()
    } else {
        let k = entries.len() - 1;
        let e = entries[k];
        poll_plan(entries.subrange(0, k)) + match unit_width(e.address.transport) {
            Some(w) => seq![
                (
                    k as usize,
                    e.address.db_number,
                    e.address.byte_offset,
                    (w * e.address.element_count) as u16,
                ),
            ],
            None => Seq::empty(),
        }
    }
}

/// The reads one poll of the registry makes.
pub fn poll_reads(reg: &TagRegistry) -> (r: Vec<PollRead>)
    ensures
        r@ == poll_plan(reg@),
{
    let entries = reg.entries();
    let mut out: Vec<PollRead> = Vec::new();
    let mut i: usize = 0;
    while i < entries.len()
        invariant
            entries@ == reg@,
            i <= entries@.len(),
            out@ == poll_plan(entries@.subrange(0, i as int)),
        decreases entries@.len() - i,
    {
        let a = entries[i].address;
        proof {
            let s = entries@.subrange(0, i + 1);
            assert(s.subrange(0, i as int) =~= entries@.subrange(0, i as int));
            assert(s[i as int] == entries@[i as int]);
        }
        if let Some(size) = transport_size_bytes(a.transport, a.element_count) {
            out.push((i, a.db_number, a.byte_offset, size as u16));
            proof {
                let w = unit_width(a.transport)->Some_0;
                assert(size == w * a.element_count);
                assert(size as u16 == (w * a.element_count) as u16);
                let s = entries@.subrange(0, i + 1);
                assert(s[s.len() - 1] == entries@[i as int]);
                assert(s.len() - 1 == i);
            }
            assert(out@ =~= poll_plan(entries@.subrange(0, i + 1)));
        } else {
            assert(out@ =~= poll_plan(entries@.subrange(0, i + 1)));
        }
        i = i + 1;
    }
    assert(entries@.subrange(0, entries@.len() as int) =~= entries@);
    out
}

/// What writing `value` to the node `node` comes to: the DB, byte offset and
/// bytes to write, or the message it is refused with. The node must be
/// registered and writable, the value must have a PLC form, and that form's
/// transport size must be the tag's.
pub open spec fn write_plan(entries: Seq<TagEntry>, node: NodeId, value: Variant) -> Result<
    (u16, u32, Seq<u8>),
    Seq<char>,
> {
    let k = first_node(entries, node, 0);
    if k >= entries.len() {
        Err("unknown node: "@ + node_text(node))
    } else if !entries[k].writable {
        Err("node "@ + node_text(node) + " is not writable"@)
    } else {
        match bytes_of(value) {
            None => Err("unsupported variant type for write"@),
            Some((data, ts)) => if ts != entries[k].address.transport {
                Err(
                    "type mismatch for node "@ + node_text(node) + ": tag expects "@
                        + transport_name(entries[k].address.transport)@ + ", got "@
                        + transport_name(ts)@,
                )
            } else {
                Ok((entries[k].address.db_number, entries[k].address.byte_offset, data))
            },
        }
    }
}

/// Decides a client's write of `value` to `node`: the DB, byte offset and bytes
/// to write to the PLC, or the OPC-UA error it is refused with. A value whose
/// width differs from the tag's is refused, so that no neighbouring PLC memory
/// is overwritten.
pub fn plan_write(reg: &TagRegistry, node: &NodeId, value: &Variant) -> (r: Result<
    (u16, u32, Vec<u8>),
    Error,
>)
    ensures
        match write_plan(reg@, *node, *value) {
            Ok((db, off, data)) => r matches Ok((d, o, v)) && d == db && o == off && v@ == data,
            Err(msg) => r matches Err(Error::OpcUa(m)) && m@ == msg,
        },
{
    let entry = match reg.find_by_node_id(node) {
        Some(e) => e,
        None => {
            let mut m = text("unknown node: ");
            m.append(node.to_string().as_str());
            assert(m@ =~= "unknown node: "@ + node_text(*node));
            return Err(Error::OpcUa(m));
        },
    };
    if !entry.writable {
        let mut m = text("node ");
        m.append(node.to_string().as_str());
        m.append(" is not writable");
        assert(m@ =~= "node "@ + node_text(*node) + " is not writable"@);
        return Err(Error::OpcUa(m));
    }
    let (data, incoming) = match variant_to_bytes(value) {
        Some(x) => x,
        None => {
            return Err(Error::OpcUa(text("unsupported variant type for write")));
        },
    };
    if incoming != entry.address.transport {
        let mut m = text("type mismatch for node ");
        m.append(node.to_string().as_str());
        m.append(": tag expects ");
        m.append(transport_name_str(entry.address.transport));
        m.append(", got ");
        m.append(transport_name_str(incoming));
        assert(m@ =~= "type mismatch for node "@ + node_text(*node) + ": tag expects "@
            + transport_name(entry.address.transport)@ + ", got "@ + transport_name(incoming)@);
        return Err(Error::OpcUa(m));
    }
    Ok((entry.address.db_number, entry.address.byte_offset, data))
}

} // verus!
