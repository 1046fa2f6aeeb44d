//! Audit entries and their byte encoding.
use vstd::prelude::*;
use vstd::string::StringSliceAdditionalSpecFns;
use vstd::utf8::encode_utf8;
use crate::clock::unix_time_secs;

verus! {

#[derive(Debug, Clone, Copy, PartialEq, Eq, Structural)]
pub enum AuditSeverity {
    Info,
    AccessGranted,
    AccessDenied,
    SystemChange,
    IntegrityViolation,
}

#[derive(Debug)]
pub struct AuditEntry {
    timestamp: u64,
    severity: AuditSeverity,
    actor_id: String,
    action: String,
    resource: String,
    checksum: String,
}

pub ghost struct AuditView {
    pub timestamp: u64,
    pub severity: AuditSeverity,
    pub actor_id: Seq<char>,
    pub actor_bytes: Seq<u8>,
    pub action: Seq<char>,
    pub action_bytes: Seq<u8>,
    pub resource: Seq<char>,
    pub checksum: Seq<char>,
}

impl View for AuditEntry {
    type V = AuditView;

    closed spec fn view(&self) -> AuditView {
        AuditView {
            timestamp: self.timestamp,
            severity: self.severity,
            actor_id: self.actor_id@,
            actor_bytes: encode_utf8(self.actor_id@),
            action: self.action@,
            action_bytes: encode_utf8(self.action@),
            resource: self.resource@,
            checksum: self.checksum@,
        }
    }
}

/// The eight bytes of `t`, most significant first.
pub open spec fn be_bytes(t: u64) -> Seq<u8> {
    Seq::new(8, |i: int| ((t >> ((56 - 8 * i) as u64)) & 0xff) as u8)
}

/// The record an entry is written as: its timestamp in eight big-endian
/// bytes, then the actor and the action, each followed by a zero byte.
pub open spec fn record(e: AuditView) -> Seq<u8> {
    be_bytes(e.timestamp) + e.actor_bytes + seq![0u8] + e.action_bytes + seq![0u8]
}

/// Sum of the bytes of `d`.
pub open spec fn byte_sum(d: Seq<u8>) -> nat
    decreases d.len(),
{
    if d.len() == 0 { 0 } else { byte_sum(d.drop_last()) + d.last() as nat }
}

/// The checksum of a record: the sum of its bytes, modulo 2^64.
pub fn compute(data: Vec<u8>) -> (r: u64)
    ensures
        r == byte_sum(data@) % 0x1_0000_0000_0000_0000,
{
    let mut hash: u64 = 0;
    let mut i: usize = 0;
    while i < data.len()
        invariant
            i <= data@.len(),
            hash == byte_sum(data@.subrange(0, i as int)) % 0x1_0000_0000_0000_0000,
        decreases data@.len() - i,
    {
        assert(data@.subrange(0, i + 1).drop_last() =~= data@.subrange(0, i as int));
        hash = hash.wrapping_add(data[i] as u64);
        i = i + 1;
    }
    assert(data@.subrange(0, data@.len() as int) =~= data@);
    hash
}

/// Appends the bytes of `s`.
fn append_bytes(buf: &mut Vec<u8>, s: &str)
    ensures
        final(buf)@ == old(buf)@ + s.spec_bytes(),
{
    let b = s.as_bytes();
    let mut i: usize = 0;
    while i < b.len()
        invariant
            i <= b@.len(),
            b@ == s.spec_bytes(),
            buf@ == old(buf)@ + b@.subrange(0, i as int),
        decreases b@.len() - i,
    {
        buf.push(b[i]);
        assert(buf@ =~= old(buf)@ + b@.subrange(0, i + 1));
        i = i + 1;
    }
    assert(b@.subrange(0, b@.len() as int) =~= b@);
}

impl AuditEntry {
    /// An entry stamped `timestamp`, with no checksum yet.
    pub fn new_at(severity: AuditSeverity, actor: &str, action: &str, resource: &str, timestamp: u64) -> (r: AuditEntry)
        ensures
            r@.timestamp == timestamp,
            r@.severity == severity,
            r@.actor_id == actor@,
            r@.action == action@,
            r@.resource == resource@,
            r@.actor_bytes == actor.spec_bytes(),
            r@.action_bytes == action.spec_bytes(),
            r@.checksum.len() == 0,
    {
        AuditEntry {
            timestamp,
            severity,
            actor_id: String::from_str(actor),
            action: String::from_str(action),
            resource: String::from_str(resource),
            checksum: String::new(),
        }
    }

    /// An entry stamped now, with no checksum yet.
    pub fn new(severity: AuditSeverity, actor: &str, action: &str, resource: &str) -> (r: AuditEntry)
        ensures
            r@.severity == severity,
            r@.actor_id == actor@,
            r@.action == action@,
            r@.resource == resource@,
            r@.checksum.len() == 0,
    {
        AuditEntry::new_at(severity, actor, action, resource, unix_time_secs())
    }

    /// Sets the entry's checksum text.
    pub fn set_checksum(&mut self, checksum: String)
        ensures
            final(self)@ == (AuditView { checksum: checksum@, ..old(self)@ }),
    {
        self.checksum = checksum;
    }

    /// The record the entry is written as.
    pub fn serialize(&self) -> (r: Vec<u8>)
        ensures
            r@ == record(self@),
    {
        let mut buffer: Vec<u8> = Vec::new();
        let mut i: u64 = 0;
        while i < 8
            invariant
                i <= 8,
                buffer@ == be_bytes(self.timestamp).subrange(0, i as int),
            decreases 8 - i,
        {
            buffer.push(((self.timestamp >> (56 - 8 * i)) & 0xff) as u8);
            assert(buffer@ =~= be_bytes(self.timestamp).subrange(0, i + 1));
            i = i + 1;
        }
        assert(be_bytes(self.timestamp).subrange(0, 8) =~= be_bytes(self.timestamp));
        append_bytes(&mut buffer, self.actor_id.as_str());
        buffer.push(0);
        append_bytes(&mut buffer, self.action.as_str());
        buffer.push(0);
        buffer
    }
}

} // verus!
