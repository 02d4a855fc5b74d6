//! Values the client hands out and takes: connection parameters, PLC facts,
//! and raw blocks in the upload/download format.
use vstd::prelude::*;
use vstd::utf8::encode_utf8;
use crate::wire::{be16_at, be16_bytes, be32_at, be32_bytes, copy_range, lemma_be16_roundtrip,
    lemma_be32_roundtrip, push_be16, push_be32, push_slice, read_be16, read_be32};

verus! {

/// Parameters of a connection; the timeouts are in milliseconds.
#[derive(Debug, Clone, Copy, PartialEq, Eq, Structural)]
pub struct ConnectParams {
    pub rack: u8,
    pub slot: u8,
    pub pdu_size: u16,
    pub connect_timeout_ms: u64,
    pub request_timeout_ms: u64,
}

impl Default for ConnectParams {
    /// Rack 0, slot 1, PDU 480 bytes, 5 s to connect, 10 s per request.
    fn default() -> (r: Self)
        ensures
            r.rack == 0,
            r.slot == 1,
            r.pdu_size == 480,
            r.connect_timeout_ms == 5000,
            r.request_timeout_ms == 10000,
    {
        ConnectParams {
            rack: 0,
            slot: 1,
            pdu_size: 480,
            connect_timeout_ms: 5000,
            request_timeout_ms: 10000,
        }
    }
}

/// Run-time status of a PLC.
#[derive(Debug, Clone, Copy, PartialEq, Eq, Structural)]
pub enum PlcStatus {
    /// Status unknown or not available.
    Unknown,
    /// The PLC is in STOP.
    Stop,
    /// The PLC is in RUN.
    Run,
}

impl PlcStatus {
    /// The status byte the PLC reports for each status.
    pub open spec fn code(self) -> u8 {
        match self {
            PlcStatus::Unknown => 0x00,
            PlcStatus::Stop => 0x04,
            PlcStatus::Run => 0x08,
        }
    }

    pub fn as_u8(&self) -> (r: u8)
        ensures
            r == self.code(),
    {
        match self {
            PlcStatus::Unknown => 0x00,
            PlcStatus::Stop => 0x04,
            PlcStatus::Run => 0x08,
        }
    }
}

/// Order number and firmware version of a PLC.
#[derive(Debug, Clone)]
pub struct OrderCode {
    pub code: String,
    pub v1: u8,
    pub v2: u8,
    pub v3: u8,
}

/// The protocol family a PLC speaks.
#[derive(Debug, Clone, Copy, PartialEq, Eq, Structural)]
pub enum Protocol {
    /// Classic S7 (S7-300, S7-400, S7-1200).
    S7,
    /// S7CommPlus (S7-1500).
    S7Plus,
}

impl Protocol {
    /// The display name: "S7" or "S7+".
    pub fn name(&self) -> (r: &'static str)
        ensures
            *self == Protocol::S7 ==> r@ == "S7"@,
            *self == Protocol::S7Plus ==> r@ == "S7+"@,
    {
        match self {
            Protocol::S7 => "S7",
            Protocol::S7Plus => "S7+",
        }
    }
}

/// Identification of a CPU.
#[derive(Debug, Clone)]
pub struct CpuInfo {
    pub module_type: String,
    pub serial_number: String,
    pub as_name: String,
    pub copyright: String,
    pub module_name: String,
    pub protocol: Protocol,
}

/// Communication limits of a CP.
#[derive(Debug, Clone, Copy, PartialEq, Eq, Structural)]
pub struct CpInfo {
    pub max_pdu_len: u32,
    pub max_connections: u32,
    pub max_mpi_rate: u32,
    pub max_bus_rate: u32,
}

/// Protection settings of a PLC.
#[derive(Debug, Clone, Copy, PartialEq, Eq, Structural)]
pub struct Protection {
    pub scheme_szl: u16,
    pub scheme_module: u16,
    pub scheme_bus: u16,
    /// 0 none, 1 write, 2 read/write, 3 complete.
    pub level: u16,
    pub password_set: bool,
}

/// The first eight bytes of `s`, padded with spaces to eight.
pub open spec fn password_field(s: Seq<u8>) -> Seq<u8> {
    Seq::new(8, |i: int| if i < s.len() { s[i] } else { 0x20u8 })
}

/// A byte with its nibbles swapped, then XOR 0x55.
pub open spec fn obfuscate_byte(b: u8) -> u8 {
    (((b % 16) * 16 + b / 16) as u8) ^ 0x55u8
}

/// Obfuscates a password for the PLC: the first eight bytes, space padded,
/// each with its nibbles swapped and XOR 0x55.
pub fn encrypt_password(password: &str) -> (r: [u8; 8])
    ensures
        r@ == password_field(encode_utf8(password@)).map_values(|b: u8| obfuscate_byte(b)),
{
    let bytes = password.as_bytes();
    let mut result = [0u8; 8];
    let mut i: usize = 0;
    while i < 8
        invariant
            i <= 8,
            bytes@ == encode_utf8(password@),
            forall|k: int|
                0 <= k < i ==> result@[k] == obfuscate_byte(password_field(bytes@)[k]),
        decreases 8 - i,
    {
        let b: u8 = if i < bytes.len() {
            bytes[i]
        } else {
            0x20
        };
        result[i] = ((b % 16) * 16 + b / 16) ^ 0x55;
        i = i + 1;
    }
    assert(result@ =~= password_field(encode_utf8(password@)).map_values(|b: u8| obfuscate_byte(b)));
    result
}

/// One module of a module list.
#[derive(Debug, Clone, Copy, PartialEq, Eq, Structural)]
pub struct ModuleEntry {
    pub module_type: u16,
}

/// How many blocks of one type a PLC holds.
#[derive(Debug, Clone, Copy, PartialEq, Eq, Structural)]
pub struct BlockListEntry {
    pub block_type: u16,
    pub count: u16,
}

/// Block counts of a PLC, per type and in all.
#[derive(Debug, Clone)]
pub struct BlockList {
    pub total_count: u32,
    pub entries: Vec<BlockListEntry>,
}

/// Block type identifiers.
#[derive(Debug, Clone, Copy, PartialEq, Eq, Structural)]
pub enum BlockType {
    OB,
    DB,
    SDB,
    FC,
    SFC,
    FB,
    SFB,
}

impl BlockType {
    /// The wire byte of each block type.
    pub open spec fn code(self) -> u8 {
        match self {
            BlockType::OB => 0x38,
            BlockType::DB => 0x41,
            BlockType::SDB => 0x42,
            BlockType::FC => 0x43,
            BlockType::SFC => 0x44,
            BlockType::FB => 0x45,
            BlockType::SFB => 0x46,
        }
    }

    pub fn as_u8(&self) -> (r: u8)
        ensures
            r == self.code(),
    {
        match self {
            BlockType::OB => 0x38,
            BlockType::DB => 0x41,
            BlockType::SDB => 0x42,
            BlockType::FC => 0x43,
            BlockType::SFC => 0x44,
            BlockType::FB => 0x45,
            BlockType::SFB => 0x46,
        }
    }
}

/// A raw block in the upload/download format: a 20-byte header
/// `[type:2][number:2][format:2][length:4][flags:2][crc1:2][crc2:2][reserved:4]`
/// then the payload.
#[derive(Debug, Clone)]
pub struct BlockData {
    pub block_type: u16,
    pub block_number: u16,
    pub format: u16,
    pub total_length: u32,
    pub flags: u16,
    pub crc1: u16,
    pub crc2: u16,
    pub payload: Vec<u8>,
}

/// Header attributes that `set_attributes` can change.
#[derive(Debug, Clone, Default)]
pub struct BlockAttributes {
    /// Author (8 bytes, space padded).
    pub author: Option<String>,
    /// Family (8 bytes, space padded).
    pub family: Option<String>,
    /// Name (8 bytes, space padded).
    pub name: Option<String>,
    /// Version, `(major << 4) | minor`.
    pub version: Option<u8>,
    /// Replaces the flags word.
    pub flags: Option<u16>,
}

/// The header fields and payload of a block, as plain values.
pub struct BlockModel {
    pub block_type: u16,
    pub block_number: u16,
    pub format: u16,
    pub total_length: u32,
    pub flags: u16,
    pub crc1: u16,
    pub crc2: u16,
    pub payload: Seq<u8>,
}

impl BlockData {
    pub open spec fn model(&self) -> BlockModel {
        BlockModel {
            block_type: self.block_type,
            block_number: self.block_number,
            format: self.format,
            total_length: self.total_length,
            flags: self.flags,
            crc1: self.crc1,
            crc2: self.crc2,
            payload: self.payload@,
        }
    }
}

/// The wire bytes of a block.
pub open spec fn block_bytes(b: BlockModel) -> Seq<u8> {
    be16_bytes(b.block_type) + be16_bytes(b.block_number) + be16_bytes(b.format) + be32_bytes(
        b.total_length,
    ) + be16_bytes(b.flags) + be16_bytes(b.crc1) + be16_bytes(b.crc2) + seq![0u8, 0u8, 0u8, 0u8]
        + b.payload
}

/// What parsing `s` as a block gives: nothing below 20 bytes, else the header
/// fields and everything after the header as payload.
pub open spec fn block_parse_spec(s: Seq<u8>) -> Option<BlockModel> {
    if s.len() < 20 {
        None
    } else {
        Some(
            BlockModel {
                block_type: be16_at(s, 0),
                block_number: be16_at(s, 2),
                format: be16_at(s, 4),
                total_length: be32_at(s, 6),
                flags: be16_at(s, 10),
                crc1: be16_at(s, 12),
                crc2: be16_at(s, 14),
                payload: s.subrange(20, s.len() as int),
            },
        )
    }
}

/// The DB size `new_db` uses: the requested size rounded up to even.
pub open spec fn db_size(size_bytes: u16) -> nat {
    if size_bytes % 2 == 0 {
        size_bytes as nat
    } else {
        size_bytes as nat + 1
    }
}

/// `s` written into a field of `w` bytes: its first bytes, padded with spaces.
pub open spec fn padded(s: Seq<u8>, w: nat) -> Seq<u8> {
    Seq::new(w, |i: int| if i < s.len() { s[i] } else { 0x20u8 })
}

/// `p` with the 8 bytes at `start` replaced by `s` padded, when `s` is given.
pub open spec fn with_field(p: Seq<u8>, start: int, s: Option<Seq<u8>>) -> Seq<u8> {
    match s {
        Some(b) => Seq::new(
            p.len(),
            |i: int| if start <= i < start + 8 { padded(b, 8)[i - start] } else { p[i] },
        ),
        None => p,
    }
}

/// The UTF-8 bytes of an optional text.
pub open spec fn opt_bytes(s: Option<String>) -> Option<Seq<u8>> {
    match s {
        Some(t) => Some(encode_utf8(t@)),
        None => None,
    }
}

/// The payload after `set_attributes`: payloads under 48 bytes are left alone;
/// otherwise author, family and name go at 8, 16 and 24 bytes into the last 48,
/// and the version at 32.
pub open spec fn attributed_payload(p: Seq<u8>, a: BlockAttributes) -> Seq<u8> {
    if p.len() < 48 {
        p
    } else {
        let f = p.len() - 48;
        let q = with_field(
            with_field(with_field(p, f + 8, opt_bytes(a.author)), f + 16, opt_bytes(a.family)),
            f + 24,
            opt_bytes(a.name),
        );
        match a.version {
            Some(v) => q.update(f + 32, v),
            None => q,
        }
    }
}

/// One step of the bitwise CRC-32 (reflected polynomial 0xEDB88320).
pub open spec fn crc_bit(c: u32) -> u32 {
    if c & 1 != 0 {
        (c >> 1u32) ^ 0xEDB8_8320u32
    } else {
        c >> 1u32
    }
}

/// `n` bitwise steps.
pub open spec fn crc_bits(c: u32, n: nat) -> u32
    decreases n,
{
    if n == 0 {
        c
    } else {
        crc_bits(crc_bit(c), (n - 1) as nat)
    }
}

/// The CRC register after feeding `s` from register value `c`.
pub open spec fn crc_update(c: u32, s: Seq<u8>) -> u32
    decreases s.len(),
{
    if s.len() == 0 {
        c
    } else {
        crc_bits(crc_update(c, s.drop_last()) ^ (s.last() as u32), 8)
    }
}

/// CRC-32 (IEEE 802.3) of `s`.
pub open spec fn crc32_spec(s: Seq<u8>) -> u32 {
    !crc_update(0xFFFF_FFFFu32, s)
}

/// CRC-32 (IEEE 802.3) of `data`.
pub fn crc32_ieee(data: &[u8]) -> (r: u32)
    ensures
        r == crc32_spec(data@),
{
    let mut crc: u32 = 0xFFFF_FFFF;
    let mut i: usize = 0;
    while i < data.len()
        invariant
            i <= data@.len(),
            crc == crc_update(0xFFFF_FFFFu32, data@.subrange(0, i as int)),
        decreases data@.len() - i,
    {
        let ghost before = crc;
        crc = crc ^ (data[i] as u32);
        let mut j: usize = 0;
        while j < 8
            invariant
                j <= 8,
                crc_bits(crc, (8 - j) as nat) == crc_bits(before ^ (data@[i as int] as u32), 8),
            decreases 8 - j,
        {
            if crc & 1 != 0 {
                crc = (crc >> 1) ^ 0xEDB8_8320;
            } else {
                crc = crc >> 1;
            }
            j = j + 1;
        }
        assert(data@.subrange(0, i + 1).drop_last() =~= data@.subrange(0, i as int));
        i = i + 1;
    }
    assert(data@.subrange(0, data@.len() as int) =~= data@);
    !crc
}

/// Writes `s` into `dst`: as many of its bytes as fit, then spaces.
pub fn write_padded(dst: &mut [u8], s: &str)
    ensures
        final(dst)@ == padded(encode_utf8(s@), old(dst)@.len()),
{
    let bytes = s.as_bytes();
    let mut i: usize = 0;
    while i < dst.len()
        invariant
            i <= dst@.len(),
            dst@.len() == old(dst)@.len(),
            bytes@ == encode_utf8(s@),
            forall|k: int| 0 <= k < i ==> dst@[k] == padded(bytes@, old(dst)@.len())[k],
        decreases dst@.len() - i,
    {
        let b: u8 = if i < bytes.len() {
            bytes[i]
        } else {
            0x20
        };
        dst[i] = b;
        i = i + 1;
    }
    assert(final(dst)@ =~= padded(encode_utf8(s@), old(dst)@.len()));
}

/// The name of a block type byte; "??" for an unknown one.
pub fn block_type_name(bt: u8) -> (r: &'static str)
    ensures
        r@ == block_type_name_spec(bt)@,
{
    match bt {
        0x38 => "OB",
        0x41 => "DB",
        0x42 => "SDB",
        0x43 => "FC",
        0x44 => "SFC",
        0x45 => "FB",
        0x46 => "SFB",
        0x47 => "UDT",
        _ => "??",
    }
}

/// The name of each block type byte.
pub open spec fn block_type_name_spec(bt: u8) -> &'static str {
    if bt == 0x38 {
        "OB"
    } else if bt == 0x41 {
        "DB"
    } else if bt == 0x42 {
        "SDB"
    } else if bt == 0x43 {
        "FC"
    } else if bt == 0x44 {
        "SFC"
    } else if bt == 0x45 {
        "FB"
    } else if bt == 0x46 {
        "SFB"
    } else if bt == 0x47 {
        "UDT"
    } else {
        "??"
    }
}

fn write_field(p: &mut Vec<u8>, start: usize, s: &Option<String>)
    requires
        start + 8 <= old(p)@.len(),
    ensures
        final(p)@ == with_field(old(p)@, start as int, opt_bytes(*s)),
{
    match s {
        Some(t) => {
            let mut field = [0u8; 8];
            write_padded(&mut field, t.as_str());
            let mut i: usize = 0;
            while i < 8
                invariant
                    i <= 8,
                    start + 8 <= p.len(),
                    p@.len() == old(p)@.len(),
                    field@ == padded(encode_utf8(t@), 8),
                    forall|k: int|
                        0 <= k < p@.len() ==> p@[k] == (if start <= k < start + i {
                            field@[k - start]
                        } else {
                            old(p)@[k]
                        }),
                decreases 8 - i,
            {
                p[start + i] = field[i];
                i = i + 1;
            }
            assert(final(p)@ =~= with_field(old(p)@, start as int, opt_bytes(*s)));
        },
        None => {},
    }
}

impl BlockData {
    /// Parses raw block bytes; `None` below 20 bytes.
    pub fn from_bytes(data: &[u8]) -> (r: Option<BlockData>)
        ensures
            match block_parse_spec(data@) {
                Some(m) => (r matches Some(b) && b.model() == m),
                None => r is None,
            },
    {
        if data.len() < 20 {
            return None;
        }
        Some(
            BlockData {
                block_type: read_be16(data, 0),
                block_number: read_be16(data, 2),
                format: read_be16(data, 4),
                total_length: read_be32(data, 6),
                flags: read_be16(data, 10),
                crc1: read_be16(data, 12),
                crc2: read_be16(data, 14),
                payload: copy_range(data, 20, data.len()),
            },
        )
    }

    /// The wire bytes of the block.
    pub fn to_bytes(&self) -> (r: Vec<u8>)
        ensures
            r@ == block_bytes(self.model()),
    {
        let mut buf: Vec<u8> = Vec::new();
        push_be16(&mut buf, self.block_type);
        push_be16(&mut buf, self.block_number);
        push_be16(&mut buf, self.format);
        push_be32(&mut buf, self.total_length);
        push_be16(&mut buf, self.flags);
        push_be16(&mut buf, self.crc1);
        push_be16(&mut buf, self.crc2);
        buf.push(0);
        buf.push(0);
        buf.push(0);
        buf.push(0);
        push_slice(&mut buf, self.payload.as_slice());
        assert(buf@ =~= block_bytes(self.model()));
        buf
    }

    /// An empty DB block: format 1, the size (rounded up to even, its length
    /// field taken modulo 65536) then that many zero bytes as payload.
    pub fn new_db(db_number: u16, size_bytes: u16) -> (r: BlockData)
        ensures
            r.block_type == BlockType::DB.code() as u16,
            r.block_number == db_number,
            r.format == 1,
            r.total_length == 22 + db_size(size_bytes),
            r.flags == 0 && r.crc1 == 0 && r.crc2 == 0,
            r.payload@ == be16_bytes((db_size(size_bytes) % 65536) as u16) + Seq::new(
                db_size(size_bytes),
                |i: int| 0u8,
            ),
    {
        let size: u32 = if size_bytes % 2 == 0 {
            size_bytes as u32
        } else {
            size_bytes as u32 + 1
        };
        let mut payload: Vec<u8> = Vec::new();
        push_be16(&mut payload, (size % 65536) as u16);
        let mut i: u32 = 0;
        while i < size
            invariant
                i <= size,
                size == db_size(size_bytes),
                payload@ == be16_bytes((size % 65536) as u16) + Seq::new(i as nat, |k: int| 0u8),
            decreases size - i,
        {
            payload.push(0);
            i = i + 1;
            assert(payload@ =~= be16_bytes((size % 65536) as u16) + Seq::new(i as nat, |k: int| 0u8));
        }
        BlockData {
            block_type: BlockType::DB.as_u8() as u16,
            block_number: db_number,
            format: 0x0001,
            total_length: 22 + size,
            flags: 0,
            crc1: 0,
            crc2: 0,
            payload,
        }
    }

    /// CRC-32 of the block's wire bytes.
    pub fn crc32(&self) -> (r: u32)
        ensures
            r == crc32_spec(block_bytes(self.model())),
    {
        let bytes = self.to_bytes();
        crc32_ieee(bytes.as_slice())
    }

    /// Applies the given attributes: the flags word when given, and the footer
    /// fields of a payload of at least 48 bytes.
    pub fn set_attributes(&mut self, attrs: &BlockAttributes)
        ensures
            final(self).flags == (match attrs.flags {
                Some(f) => f,
                None => old(self).flags,
            }),
            final(self).payload@ == attributed_payload(old(self).payload@, *attrs),
            final(self).block_type == old(self).block_type,
            final(self).block_number == old(self).block_number,
            final(self).format == old(self).format,
            final(self).total_length == old(self).total_length,
            final(self).crc1 == old(self).crc1,
            final(self).crc2 == old(self).crc2,
    {
        if let Some(f) = attrs.flags {
            self.flags = f;
        }
        let plen = self.payload.len();
        if plen < 48 {
            return;
        }
        let base = plen - 48;
        write_field(&mut self.payload, base + 8, &attrs.author);
        write_field(&mut self.payload, base + 16, &attrs.family);
        write_field(&mut self.payload, base + 24, &attrs.name);
        if let Some(v) = attrs.version {
            self.payload.set(base + 32, v);
        }
    }

    /// The name of the block's type: that of its low byte.
    pub fn type_label(&self) -> (r: &'static str)
        ensures
            r@ == block_type_name_spec(self.block_type as u8)@,
    {
        block_type_name(self.block_type as u8)
    }
}

/// Parsing the wire bytes of a block gives back every field.
pub proof fn lemma_block_roundtrip(b: BlockModel)
    ensures
        block_parse_spec(block_bytes(b)) == Some(b),
{
    let s = block_bytes(b);
    lemma_be16_roundtrip(b.block_type);
    lemma_be16_roundtrip(b.block_number);
    lemma_be16_roundtrip(b.format);
    lemma_be32_roundtrip(b.total_length);
    lemma_be16_roundtrip(b.flags);
    lemma_be16_roundtrip(b.crc1);
    lemma_be16_roundtrip(b.crc2);
    assert(be16_at(s, 0) == be16_at(be16_bytes(b.block_type), 0));
    assert(be16_at(s, 2) == be16_at(be16_bytes(b.block_number), 0));
    assert(be16_at(s, 4) == be16_at(be16_bytes(b.format), 0));
    assert(be32_at(s, 6) == be32_at(be32_bytes(b.total_length), 0));
    assert(be16_at(s, 10) == be16_at(be16_bytes(b.flags), 0));
    assert(be16_at(s, 12) == be16_at(be16_bytes(b.crc1), 0));
    assert(be16_at(s, 14) == be16_at(be16_bytes(b.crc2), 0));
    assert(s.subrange(20, s.len() as int) =~= b.payload);
}

/// Outcome of comparing a local block with the PLC's copy.
#[derive(Debug, Clone, Copy, PartialEq, Eq, Structural)]
pub enum BlockCmpResult {
    /// The CRCs are equal.
    Match,
    /// The CRCs differ.
    Mismatch { local_crc: u32, plc_crc: u32 },
    /// Only the local side has the block.
    OnlyLocal,
    /// Only the PLC has the block.
    OnlyPlc,
}

/// Details of one block on the PLC.
#[derive(Debug, Clone)]
pub struct BlockInfo {
    pub block_type: u16,
    pub block_number: u16,
    pub language: u16,
    pub flags: u16,
    pub size: u16,
    pub size_ram: u16,
    pub mc7_size: u16,
    pub local_data: u16,
    pub checksum: u16,
    pub version: u16,
    pub author: String,
    pub family: String,
    pub header: String,
    pub date: String,
}

} // verus!
