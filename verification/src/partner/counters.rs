//! A partner's counters: the sequence and PDU reference numbers it hands out,
//! the bytes it sent and received, and its send and receive errors.
use vstd::prelude::*;
use crate::partner::PartnerStatus;

verus! {

/// The counters of a partner; every counter wraps around at its width.
#[derive(Debug, Clone, Copy, PartialEq, Eq, Structural)]
pub struct PartnerCounters {
    pub seq: u8,
    pub pdu_ref: u16,
    pub connected: bool,
    pub bytes_sent: u64,
    pub bytes_recv: u64,
    pub send_errors: u32,
    pub recv_errors: u32,
}

/// `v + n` wrapped to 64 bits.
pub open spec fn wrap64(v: u64, n: u64) -> u64 {
    ((v as int + n as int) % 0x1_0000_0000_0000_0000) as u64
}

impl PartnerCounters {
    /// A partner not yet connected: sequence 0, PDU reference 1, nothing counted.
    pub fn new() -> (r: Self)
        ensures
            r == (PartnerCounters {
                seq: 0,
                pdu_ref: 1,
                connected: false,
                bytes_sent: 0,
                bytes_recv: 0,
                send_errors: 0,
                recv_errors: 0,
            }),
    {
        PartnerCounters {
            seq: 0,
            pdu_ref: 1,
            connected: false,
            bytes_sent: 0,
            bytes_recv: 0,
            send_errors: 0,
            recv_errors: 0,
        }
    }

    /// Whether the partner is connected.
    pub fn status(&self) -> (r: PartnerStatus)
        ensures
            r == (if self.connected {
                PartnerStatus::Connected
            } else {
                PartnerStatus::Disconnected
            }),
    {
        if self.connected {
            PartnerStatus::Connected
        } else {
            PartnerStatus::Disconnected
        }
    }

    /// `(bytes sent, bytes received)`.
    pub fn get_stats(&self) -> (r: (u64, u64))
        ensures
            r == (self.bytes_sent, self.bytes_recv),
    {
        (self.bytes_sent, self.bytes_recv)
    }

    /// `(send errors, receive errors)`.
    pub fn get_error_counts(&self) -> (r: (u32, u32))
        ensures
            r == (self.send_errors, self.recv_errors),
    {
        (self.send_errors, self.recv_errors)
    }

    /// Hands out the next sequence number; the counter advances by one, wrapping.
    pub fn next_seq(&mut self) -> (r: u8)
        ensures
            r == old(self).seq,
            *final(self) == (PartnerCounters { seq: (if old(self).seq == 255 { 0 } else { old(self).seq + 1 }) as u8, ..*old(self) }),
    {
        let s = self.seq;
        self.seq = if s == 255 {
            0
        } else {
            s + 1
        };
        s
    }

    /// Hands out the next PDU reference; the counter advances by one, wrapping.
    pub fn next_pdu_ref(&mut self) -> (r: u16)
        ensures
            r == old(self).pdu_ref,
            *final(self) == (PartnerCounters { pdu_ref: (if old(self).pdu_ref == u16::MAX { 0 } else { old(self).pdu_ref + 1 }) as u16, ..*old(self) }),
    {
        let p = self.pdu_ref;
        self.pdu_ref = if p == u16::MAX {
            0
        } else {
            p + 1
        };
        p
    }

    /// Marks the partner connected or not.
    pub fn set_connected(&mut self, connected: bool)
        ensures
            *final(self) == (PartnerCounters { connected, ..*old(self) }),
    {
        self.connected = connected;
    }

    /// Counts `n` bytes sent.
    pub fn add_sent(&mut self, n: u64)
        ensures
            *final(self) == (PartnerCounters { bytes_sent: wrap64(old(self).bytes_sent, n), ..*old(self) }),
    {
        self.bytes_sent = self.bytes_sent.wrapping_add(n);
    }

    /// Counts `n` bytes received.
    pub fn add_recv(&mut self, n: u64)
        ensures
            *final(self) == (PartnerCounters { bytes_recv: wrap64(old(self).bytes_recv, n), ..*old(self) }),
    {
        self.bytes_recv = self.bytes_recv.wrapping_add(n);
    }

    /// Counts one send error.
    pub fn add_send_error(&mut self)
        ensures
            *final(self) == (PartnerCounters { send_errors: (if old(self).send_errors == u32::MAX { 0 } else { old(self).send_errors + 1 }) as u32, ..*old(self) }),
    {
        self.send_errors = self.send_errors.wrapping_add(1);
    }

    /// Counts one receive error.
    pub fn add_recv_error(&mut self)
        ensures
            *final(self) == (PartnerCounters { recv_errors: (if old(self).recv_errors == u32::MAX { 0 } else { old(self).recv_errors + 1 }) as u32, ..*old(self) }),
    {
        self.recv_errors = self.recv_errors.wrapping_add(1);
    }
}

} // verus!
