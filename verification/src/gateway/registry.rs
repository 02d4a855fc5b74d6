//! The registry that maps OPC-UA nodes to PLC tags.
use vstd::prelude::*;
use vstd::utf8::encode_utf8;
use crate::error::text;
use crate::gateway::config::TagSpec;
use crate::gateway::error::Error;
use crate::tag::{fault_prefix, parse_tag, parse_tag_spec, TagAddress, TagFault};
use crate::text::{decimal, lower_hex, push_decimal, push_lower_hex};

verus! {

/// The identifier of an OPC-UA node: a namespace index and a string identifier.
#[derive(Debug, Clone, PartialEq, Eq)]
pub struct NodeId {
    pub namespace: u16,
    pub name: String,
}

/// Two node identifiers name the same node.
pub open spec fn same_node(a: NodeId, b: NodeId) -> bool {
    a.namespace == b.namespace && a.name@ == b.name@
}

/// The text form of a node identifier: `ns=<namespace>;s=<name>`, the namespace
/// part left out for namespace 0.
pub open spec fn node_text(n: NodeId) -> Seq<char> {
    (if n.namespace != 0 {
        "ns="@ + decimal(n.namespace as nat) + ";"@
    } else {
        Seq::<char>::empty()
    }) + "s="@ + n.name@
}

impl NodeId {
    /// The node with a string identifier in a namespace.
    pub fn new(namespace: u16, name: &str) -> (r: NodeId)
        ensures
            r.namespace == namespace,
            r.name@ == name@,
    {
        NodeId { namespace, name: text(name) }
    }

    /// The text form `ns=<namespace>;s=<name>` (no namespace part for namespace 0).
    pub fn to_string(&self) -> (r: String)
        ensures
            r@ == node_text(*self),
    {
        let mut s = String::new();
        if self.namespace != 0 {
            s.append("ns=");
            push_decimal(&mut s, self.namespace as u64);
            s.append(";");
        }
        s.append("s=");
        s.append(self.name.as_str());
        assert(s@ =~= node_text(*self));
        s
    }

    /// Whether both identifiers name the same node.
    pub fn same(&self, other: &NodeId) -> (r: bool)
        ensures
            r == same_node(*self, *other),
    {
        self.namespace == other.namespace && self.name == other.name
    }
}

/// A tag as the gateway serves it: its node, its parsed PLC address, its name,
/// and whether OPC-UA clients may write it.
#[derive(Debug, Clone)]
pub struct TagEntry {
    pub node_id: NodeId,
    pub address: TagAddress,
    pub name: String,
    pub writable: bool,
}

/// The registry of a PLC's tags, in the order of its configuration.
#[derive(Debug)]
pub struct TagRegistry {
    entries: Vec<TagEntry>,
}

impl View for TagRegistry {
    type V = Seq<TagEntry>;

    closed spec fn view(&self) -> Seq<TagEntry> {
        self.entries@
    }
}

/// The namespace of the tag nodes.
pub const TAG_NAMESPACE: u16 = 2;

/// What parsing a tag specification's tag string gives.
pub open spec fn tag_result(s: TagSpec) -> Result<TagAddress, TagFault> {
    parse_tag_spec(encode_utf8(s.tag@))
}

/// The entry serves the tag specification: its node is the name in the tag
/// namespace, and its address is what the tag string parses to.
pub open spec fn entry_serves(e: TagEntry, s: TagSpec) -> bool {
    &&& e.node_id.namespace == TAG_NAMESPACE
    &&& e.node_id.name@ == s.name@
    &&& e.name@ == s.name@
    &&& e.writable == s.writable
    &&& tag_result(s) == Ok::<TagAddress, TagFault>(e.address)
}

/// The index of the first specification from `i` on whose tag does not parse,
/// or the length when all do.
pub open spec fn first_bad_tag(specs: Seq<TagSpec>, i: int) -> int
    decreases specs.len() - i,
{
    if i < 0 || i >= specs.len() {
        specs.len() as int
    } else if tag_result(specs[i]) is Err {
        i
    } else {
        first_bad_tag(specs, i + 1)
    }
}

pub proof fn lemma_first_bad_tag(specs: Seq<TagSpec>, i: int)
    requires
        0 <= i <= specs.len(),
    ensures
        i <= first_bad_tag(specs, i) <= specs.len(),
        first_bad_tag(specs, i) < specs.len() ==> tag_result(specs[first_bad_tag(specs, i)]) is Err,
        forall|j: int| i <= j < first_bad_tag(specs, i) ==> tag_result(#[trigger] specs[j]) is Ok,
    decreases specs.len() - i,
{
    if i < specs.len() && tag_result(specs[i]) is Ok {
        lemma_first_bad_tag(specs, i + 1);
    }
}

/// The text of a PLC error: `PLC error: code=0x<code, 4 hex digits at least> (<message>)`.
pub open spec fn plc_error_text(code: u32, message: Seq<char>) -> Seq<char> {
    "PLC error: code=0x"@ + lower_hex(code, 4) + " ("@ + message + ")"@
}

/// Renders a PLC error as text.
pub fn describe_plc_error(code: u32, message: &str) -> (r: String)
    ensures
        r@ == plc_error_text(code, message@),
{
    let mut s = text("PLC error: code=0x");
    push_lower_hex(&mut s, code, 4);
    s.append(" (");
    s.append(message);
    s.append(")");
    assert(s@ =~= plc_error_text(code, message@));
    s
}

/// The reason a refused tag is reported with: the text of the PLC error that
/// parsing it gives.
pub open spec fn tag_refusal(s: TagSpec) -> Seq<char> {
    plc_error_text(0, fault_prefix(tag_result(s)->Err_0) + s.tag@)
}

/// The index of the first entry from `i` on that serves `id`, or the length.
pub open spec fn first_node(entries: Seq<TagEntry>, id: NodeId, i: int) -> int
    decreases entries.len() - i,
{
    if i < 0 || i >= entries.len() {
        entries.len() as int
    } else if same_node(entries[i].node_id, id) {
        i
    } else {
        first_node(entries, id, i + 1)
    }
}

proof fn lemma_first_node(entries: Seq<TagEntry>, id: NodeId, i: int)
    requires
        0 <= i <= entries.len(),
    ensures
        i <= first_node(entries, id, i) <= entries.len(),
        first_node(entries, id, i) < entries.len() ==> same_node(
            entries[first_node(entries, id, i)].node_id,
            id,
        ),
        forall|j: int|
            i <= j < first_node(entries, id, i) ==> !same_node(#[trigger] entries[j].node_id, id),
    decreases entries.len() - i,
{
    if i < entries.len() && !same_node(entries[i].node_id, id) {
        lemma_first_node(entries, id, i + 1);
    }
}

impl TagRegistry {
    /// Builds the registry of the tag specifications, in order: each tag gets a
    /// node named after it in namespace 2. The first tag string that does not
    /// parse is reported with the text of its parse error.
    pub fn from_specs(specs: &[TagSpec]) -> (r: Result<TagRegistry, Error>)
        ensures
            first_bad_tag(specs@, 0) == specs@.len() ==> (r matches Ok(reg) && reg@.len()
                == specs@.len() && forall|i: int|
                0 <= i < specs@.len() ==> entry_serves(#[trigger] reg@[i], specs@[i])),
            first_bad_tag(specs@, 0) < specs@.len() ==> (r matches Err(
                Error::InvalidTag { tag, reason },
            ) && tag@ == specs@[first_bad_tag(specs@, 0)].tag@ && reason@ == tag_refusal(
                specs@[first_bad_tag(specs@, 0)],
            )),
    {
        let mut entries: Vec<TagEntry> = Vec::new();
        let mut i: usize = 0;
        proof {
            lemma_first_bad_tag(specs@, 0);
        }
        while i < specs.len()
            invariant
                i <= specs@.len(),
                entries@.len() == i,
                first_bad_tag(specs@, 0) == first_bad_tag(specs@, i as int),
                forall|j: int| 0 <= j < i ==> entry_serves(#[trigger] entries@[j], specs@[j]),
            decreases specs.len() - i,
        {
            let spec = &specs[i];
            match parse_tag(spec.tag.as_str()) {
                Ok(address) => {
                    entries.push(
                        TagEntry {
                            node_id: NodeId::new(TAG_NAMESPACE, spec.name.as_str()),
                            address,
                            name: spec.name.clone(),
                            writable: spec.writable,
                        },
                    );
                    i = i + 1;
                },
                Err(e) => {
                    let reason = match e {
                        crate::error::Error::PlcError { code, message } => describe_plc_error(
                            code,
                            message.as_str(),
                        ),
                        _ => String::new(),
                    };
                    return Err(Error::InvalidTag { tag: spec.tag.clone(), reason });
                },
            }
        }
        Ok(TagRegistry { entries })
    }

    /// The number of registered tags.
    pub fn len(&self) -> (r: usize)
        ensures
            r == self@.len(),
    {
        self.entries.len()
    }

    /// Whether no tag is registered.
    pub fn is_empty(&self) -> (r: bool)
        ensures
            r == (self@.len() == 0),
    {
        self.entries.len() == 0
    }

    /// The registered tags, in order.
    pub fn entries(&self) -> (r: &[TagEntry])
        ensures
            r@ == self@,
    {
        self.entries.as_slice()
    }

    /// The first entry whose node is `node_id`, if any.
    pub fn find_by_node_id(&self, node_id: &NodeId) -> (r: Option<&TagEntry>)
        ensures
            first_node(self@, *node_id, 0) < self@.len() ==> (r matches Some(e) && *e
                == self@[first_node(self@, *node_id, 0)]),
            first_node(self@, *node_id, 0) == self@.len() ==> r is None,
            first_node(self@, *node_id, 0) <= self@.len(),
    {
        proof {
            lemma_first_node(self@, *node_id, 0);
        }
        let mut i: usize = 0;
        while i < self.entries.len()
            invariant
                i <= self@.len(),
                self.entries@ == self@,
                first_node(self@, *node_id, 0) == first_node(self@, *node_id, i as int),
            decreases self@.len() - i,
        {
            if self.entries[i].node_id.same(node_id) {
                return Some(&self.entries[i]);
            }
            i = i + 1;
        }
        None
    }
}

} // verus!
