//! Key vault: named keys behind a master seed, with block encryption.
use vstd::prelude::*;
use crate::clock::unix_time_secs;
use crate::text::{decimal, decimal_text, push_text};

verus! {

pub const VAULT_VERSION: u16 = 4;

/// Largest block `encrypt_block` takes, in bytes.
pub const BLOCK_SIZE: usize = 256;

/// Lifetime of a key, in seconds.
pub const MAX_KEY_ROTATION: u64 = 86400;

/// The byte every block byte is combined with.
pub const BLOCK_MASK: u8 = 0xAA;

/// Length of a key's payload, in bytes.
pub const KEY_LEN: usize = 32;

#[derive(Debug, Clone, Copy, PartialEq, Eq, Structural)]
pub enum CryptoError {
    KeyGenerationFailed,
    EncryptionPaddingError,
    DecryptionIntegrityFailure,
    VaultLocked,
    InsufficientEntropy,
    HardwareSecurityModuleUnreachable,
    CertificateRevoked,
}

pub struct SecureKey {
    id: String,
    payload: Vec<u8>,
    created_at: u64,
    expires_at: u64,
    algorithm: String,
    version: u16,
}

pub ghost struct KeyView {
    pub id: Seq<char>,
    pub payload: Seq<u8>,
    pub created_at: u64,
    pub expires_at: u64,
    pub algorithm: Seq<char>,
    pub version: u16,
}

impl View for SecureKey {
    type V = KeyView;

    closed spec fn view(&self) -> KeyView {
        KeyView {
            id: self.id@,
            payload: self.payload@,
            created_at: self.created_at,
            expires_at: self.expires_at,
            algorithm: self.algorithm@,
            version: self.version,
        }
    }
}

/// `now + d`, held at `u64::MAX`.
pub open spec fn later(now: u64, d: u64) -> u64 {
    if now + d > u64::MAX { u64::MAX } else { (now + d) as u64 }
}

/// A payload of zero bytes.
pub open spec fn blank_payload() -> Seq<u8> {
    Seq::new(KEY_LEN as nat, |i: int| 0u8)
}

fn blank() -> (r: Vec<u8>)
    ensures
        r@ == blank_payload(),
{
    let mut v: Vec<u8> = Vec::new();
    let mut i: usize = 0;
    while i < KEY_LEN
        invariant
            i <= KEY_LEN,
            v@ == Seq::new(i as nat, |j: int| 0u8),
        decreases KEY_LEN - i,
    {
        v.push(0u8);
        assert(v@ =~= Seq::new((i + 1) as nat, |j: int| 0u8));
        i = i + 1;
    }
    v
}

impl SecureKey {
    /// A key created at `now`, valid for `MAX_KEY_ROTATION` seconds.
    pub fn new_at(id: String, algorithm: String, now: u64) -> (r: SecureKey)
        ensures
            r@ == (KeyView {
                id: id@,
                payload: blank_payload(),
                created_at: now,
                expires_at: later(now, MAX_KEY_ROTATION),
                algorithm: algorithm@,
                version: VAULT_VERSION,
            }),
    {
        let expires_at = if now > u64::MAX - MAX_KEY_ROTATION { u64::MAX } else { now + MAX_KEY_ROTATION };
        SecureKey { id, payload: blank(), created_at: now, expires_at, algorithm, version: VAULT_VERSION }
    }

    /// A key created now, valid for `MAX_KEY_ROTATION` seconds.
    pub fn new(id: String, algorithm: String) -> (r: SecureKey)
        ensures
            r@.id == id@,
            r@.algorithm == algorithm@,
            r@.payload == blank_payload(),
            r@.expires_at == later(r@.created_at, MAX_KEY_ROTATION),
            r@.version == VAULT_VERSION,
    {
        SecureKey::new_at(id, algorithm, unix_time_secs())
    }

    /// The key has not expired at `now`.
    pub fn is_valid_at(&self, now: u64) -> (r: bool)
        ensures
            r == (self@.expires_at > now),
    {
        self.expires_at > now
    }

    /// The key has not expired.
    pub fn is_valid(&self) -> (r: bool) {
        self.is_valid_at(unix_time_secs())
    }

    /// Re-keys at `now`: a fresh payload and creation time; the expiry stays.
    pub fn rotate_at(&mut self, now: u64)
        ensures
            final(self)@ == (KeyView { payload: blank_payload(), created_at: now, ..old(self)@ }),
    {
        self.payload = blank();
        self.created_at = now;
    }

    /// Re-keys now.
    pub fn rotate(&mut self)
        ensures
            final(self)@ == (KeyView { payload: blank_payload(), created_at: final(self)@.created_at, ..old(self)@ }),
    {
        self.rotate_at(unix_time_secs());
    }

    pub fn id(&self) -> (r: &str)
        ensures
            r@ == self@.id,
    {
        self.id.as_str()
    }
}

/// Each byte combined with `BLOCK_MASK`.
pub open spec fn masked(d: Seq<u8>) -> Seq<u8> {
    Seq::new(d.len(), |i: int| d[i] ^ BLOCK_MASK)
}

/// Masking twice gives the block back, so `decrypt_block` undoes
/// `encrypt_block`.
pub proof fn lemma_mask_round_trip(d: Seq<u8>)
    ensures
        masked(masked(d)) == d,
{
    assert forall|i: int| 0 <= i < d.len() implies masked(masked(d))[i] == d[i] by {
        let b = d[i];
        assert(b ^ 0xAAu8 ^ 0xAAu8 == b) by (bit_vector);
    }
    assert(masked(masked(d)) =~= d);
}

/// The block `d` masked byte by byte.
fn mask(d: &[u8]) -> (r: Vec<u8>)
    ensures
        r@ == masked(d@),
{
    let mut out: Vec<u8> = Vec::with_capacity(d.len());
    let mut i: usize = 0;
    while i < d.len()
        invariant
            i <= d@.len(),
            out@ == masked(d@.subrange(0, i as int)),
        decreases d@.len() - i,
    {
        out.push(d[i] ^ BLOCK_MASK);
        assert(out@ =~= masked(d@.subrange(0, i + 1)));
        i = i + 1;
    }
    assert(d@.subrange(0, d@.len() as int) =~= d@);
    out
}


pub struct Vault {
    keys: Vec<SecureKey>,
    locked: bool,
    master_seed: Vec<u8>,
    audit_log: Vec<String>,
}

pub ghost struct VaultView {
    pub keys: Seq<KeyView>,
    pub locked: bool,
    pub seed: Seq<u8>,
    pub log: Seq<Seq<char>>,
}

impl View for Vault {
    type V = VaultView;

    closed spec fn view(&self) -> VaultView {
        VaultView {
            keys: self.keys@.map_values(|k: SecureKey| k@),
            locked: self.locked,
            seed: self.master_seed@,
            log: self.audit_log@.map_values(|s: String| s@),
        }
    }
}

/// No two keys share an id.
pub open spec fn ids_distinct(keys: Seq<KeyView>) -> bool {
    forall|i: int, j: int| 0 <= i < keys.len() && 0 <= j < keys.len() && i != j ==> keys[i].id != keys[j].id
}

pub open spec fn has_key(keys: Seq<KeyView>, id: Seq<char>) -> bool {
    exists|i: int| 0 <= i < keys.len() && keys[i].id == id
}

/// The keys after storing `k`: it replaces the key with its id, or is added.
pub open spec fn stored(keys: Seq<KeyView>, k: KeyView) -> Seq<KeyView> {
    if has_key(keys, k.id) {
        keys.update(choose|i: int| 0 <= i < keys.len() && keys[i].id == k.id, k)
    } else {
        keys.push(k)
    }
}

/// Keeps the keys that have not expired at `now`.
pub open spec fn live_at(now: u64) -> spec_fn(KeyView) -> bool {
    |k: KeyView| k.expires_at > now
}

impl Vault {
    pub open spec fn wf(&self) -> bool {
        ids_distinct(self@.keys)
    }

    /// An unlocked vault with no keys, guarded by `seed`.
    pub fn initialize(seed: Vec<u8>) -> (r: Vault)
        ensures
            r.wf(),
            r@ == (VaultView { keys: seq![], locked: false, seed: seed@, log: seq![] }),
    {
        let v = Vault { keys: Vec::new(), locked: false, master_seed: seed, audit_log: Vec::new() };
        assert(v@.keys =~= Seq::<KeyView>::empty());
        assert(v@.log =~= Seq::<Seq<char>>::empty());
        v
    }

    /// Index of the key with id `id`.
    fn find_key(&self, id: &String) -> (r: Option<usize>)
        ensures
            r matches Some(i) ==> i < self@.keys.len() && self@.keys[i as int].id == id@,
            r is None ==> !has_key(self@.keys, id@),
    {
        let mut i: usize = 0;
        while i < self.keys.len()
            invariant
                i <= self@.keys.len(),
                forall|j: int| 0 <= j < i ==> self@.keys[j].id != id@,
            decreases self@.keys.len() - i,
        {
            assert(self@.keys[i as int] == self.keys@[i as int]@);
            if self.keys[i].id == *id {
                return Some(i);
            }
            i = i + 1;
        }
        None
    }

    /// Stores `key`, replacing a key with the same id, and records it in
    /// the audit log. Refused while the vault is locked.
    pub fn store_key(&mut self, key: SecureKey) -> (r: Result<(), CryptoError>)
        requires
            old(self).wf(),
        ensures
            final(self).wf(),
            old(self)@.locked ==> r == Err::<(), CryptoError>(CryptoError::VaultLocked) && final(self)@ == old(self)@,
            !old(self)@.locked ==> r is Ok && final(self)@ == (VaultView {
                keys: stored(old(self)@.keys, key@),
                log: old(self)@.log.push("Stored key: "@ + key@.id),
                ..old(self)@
            }),
    {
        if self.locked {
            return Err(CryptoError::VaultLocked);
        }
        let mut line = String::from_str("Stored key: ");
        push_text(&mut line, key.id.as_str());
        self.audit_log.push(line);
        let ghost kv = key@;
        let ghost ok = old(self)@.keys;
        match self.find_key(&key.id) {
            Some(i) => {
                proof {
                    let c = choose|c: int| 0 <= c < ok.len() && ok[c].id == kv.id;
                    if c != i as int {
                        assert(ok[c].id == ok[i as int].id);
                    }
                }
                self.keys.set(i, key);
                assert(self@.keys =~= ok.update(i as int, kv));
            },
            None => {
                self.keys.push(key);
                assert(self@.keys =~= ok.push(kv));
            },
        }
        assert(self@.log =~= old(self)@.log.push("Stored key: "@ + kv.id));
        proof {
            let nk = self@.keys;
            assert forall|a: int, b: int| 0 <= a < nk.len() && 0 <= b < nk.len() && a != b implies nk[a].id != nk[b].id by {
                if has_key(ok, kv.id) {
                    let c = choose|c: int| 0 <= c < ok.len() && ok[c].id == kv.id;
                    assert(ok[c].id == kv.id);
                } else {
                    if a < ok.len() && b < ok.len() {
                    } else if a < ok.len() {
                        assert(ok[a].id != kv.id);
                    } else {
                        assert(ok[b].id != kv.id);
                    }
                }
            }
        }
        Ok(())
    }

    /// The key with id `id`. Refused while the vault is locked, and for an
    /// unknown id.
    pub fn retrieve_key(&self, id: &str) -> (r: Result<&SecureKey, CryptoError>)
        requires
            self.wf(),
        ensures
            self@.locked ==> (r matches Err(e) && e == CryptoError::VaultLocked),
            !self@.locked && !has_key(self@.keys, id@) ==> (r matches Err(e) && e == CryptoError::DecryptionIntegrityFailure),
            !self@.locked && has_key(self@.keys, id@) ==> (r matches Ok(k) && k@.id == id@ && self@.keys.contains(k@)),
    {
        if self.locked {
            return Err(CryptoError::VaultLocked);
        }
        let name = String::from_str(id);
        match self.find_key(&name) {
            Some(i) => {
                assert(self@.keys[i as int] == self.keys@[i as int]@);
                Ok(&self.keys[i])
            },
            None => Err(CryptoError::DecryptionIntegrityFailure),
        }
    }

    /// Locks the vault, and records it in the audit log.
    pub fn lock(&mut self)
        ensures
            final(self)@ == (VaultView { locked: true, log: old(self)@.log.push("Vault locked manually"@), ..old(self)@ }),
    {
        self.locked = true;
        self.audit_log.push(String::from_str("Vault locked manually"));
        assert(self@.log =~= old(self)@.log.push("Vault locked manually"@));
    }

    /// Unlocks the vault if `seed` is its master seed; either outcome goes to
    /// the audit log.
    pub fn unlock(&mut self, seed: &[u8]) -> (r: Result<(), CryptoError>)
        ensures
            seed@ == old(self)@.seed ==> r is Ok && final(self)@ == (VaultView {
                locked: false,
                log: old(self)@.log.push("Vault unlocked successfully"@),
                ..old(self)@
            }),
            seed@ != old(self)@.seed ==> r == Err::<(), CryptoError>(CryptoError::DecryptionIntegrityFailure)
                && final(self)@ == (VaultView { log: old(self)@.log.push("Vault unlock attempt failed"@), ..old(self)@ }),
    {
        let mut same = seed.len() == self.master_seed.len();
        let mut i: usize = 0;
        while same && i < seed.len()
            invariant
                same ==> seed@.len() == self.master_seed@.len(),
                same ==> seed@.subrange(0, i as int) == self.master_seed@.subrange(0, i as int),
                !same ==> seed@ != self.master_seed@,
                i <= seed@.len(),
            decreases seed@.len() - i,
        {
            if seed[i] != self.master_seed[i] {
                same = false;
            } else {
                assert(seed@.subrange(0, i + 1) =~= seed@.subrange(0, i as int).push(seed@[i as int]));
                assert(self.master_seed@.subrange(0, i + 1) =~= self.master_seed@.subrange(0, i as int).push(self.master_seed@[i as int]));
            }
            i = i + 1;
        }
        if same {
            assert(seed@ =~= seed@.subrange(0, seed@.len() as int));
            assert(self.master_seed@ =~= self.master_seed@.subrange(0, self.master_seed@.len() as int));
            self.locked = false;
            self.audit_log.push(String::from_str("Vault unlocked successfully"));
            assert(self@.log =~= old(self)@.log.push("Vault unlocked successfully"@));
            Ok(())
        } else {
            self.audit_log.push(String::from_str("Vault unlock attempt failed"));
            assert(self@.log =~= old(self)@.log.push("Vault unlock attempt failed"@));
            Err(CryptoError::DecryptionIntegrityFailure)
        }
    }

    /// Drops the keys that have expired at `now`; returns how many.
    pub fn purge_expired_at(&mut self, now: u64) -> (r: usize)
        requires
            old(self).wf(),
        ensures
            final(self).wf(),
            final(self)@ == (VaultView { keys: old(self)@.keys.filter(live_at(now)), ..old(self)@ }),
            r == old(self)@.keys.len() - final(self)@.keys.len(),
    {
        let before = self.keys.len();
        let ghost pred = live_at(now);
        let mut all: Vec<SecureKey> = Vec::new();
        std::mem::swap(&mut all, &mut self.keys);
        let ghost orig = all@.map_values(|k: SecureKey| k@);
        assert(orig == old(self)@.keys);
        while all.len() > 0
            invariant
                self.keys@.map_values(|k: SecureKey| k@) + all@.map_values(|k: SecureKey| k@).filter(pred) == orig.filter(pred),
                ids_distinct(self.keys@.map_values(|k: SecureKey| k@) + all@.map_values(|k: SecureKey| k@)),
                self.keys@.len() + all@.len() <= orig.len(),
                self.locked == old(self).locked,
                self.master_seed == old(self).master_seed,
                self.audit_log == old(self).audit_log,
                pred == live_at(now),
            decreases all@.len(),
        {
            let ghost kept = self.keys@.map_values(|k: SecureKey| k@);
            let ghost rest = all@.map_values(|k: SecureKey| k@);
            let k = all.remove(0);
            let ghost tail = all@.map_values(|k: SecureKey| k@);
            assert(rest =~= seq![k@] + tail);
            proof { tail.lemma_filter_prepend(k@, pred); }
            if k.expires_at > now {
                self.keys.push(k);
                assert(self.keys@.map_values(|k: SecureKey| k@) =~= kept.push(k@));
                assert(kept + rest =~= kept.push(k@) + tail);
                assert(kept.push(k@) + tail.filter(pred) =~= kept + (seq![k@] + tail.filter(pred)));
            } else {
                assert(kept + tail =~= (kept + rest).remove(kept.len() as int));
                proof { lemma_ids_remove(kept + rest, kept.len() as int); }
                assert(kept + tail.filter(pred) =~= kept + (Seq::<KeyView>::empty() + tail.filter(pred)));
            }
        }
        assert(all@.map_values(|k: SecureKey| k@) =~= Seq::<KeyView>::empty());
        assert(self@.keys =~= self@.keys + Seq::<KeyView>::empty());
        assert(self@.log == old(self)@.log);
        before - self.keys.len()
    }

    /// Drops the keys that have expired; returns how many.
    pub fn purge_expired(&mut self) -> (r: usize)
        requires
            old(self).wf(),
        ensures
            final(self).wf(),
            r == old(self)@.keys.len() - final(self)@.keys.len(),
    {
        self.purge_expired_at(unix_time_secs())
    }

    /// Encrypts a block of at most `BLOCK_SIZE` bytes under the key `key_id`.
    /// Refused while locked, for an unknown key, and for a longer block.
    pub fn encrypt_block(&self, data: &[u8], key_id: &str) -> (r: Result<Vec<u8>, CryptoError>)
        requires
            self.wf(),
        ensures
            self@.locked ==> (r matches Err(e) && e == CryptoError::VaultLocked),
            !self@.locked && !has_key(self@.keys, key_id@) ==> (r matches Err(e) && e == CryptoError::DecryptionIntegrityFailure),
            !self@.locked && has_key(self@.keys, key_id@) && data@.len() > BLOCK_SIZE ==> (r matches Err(e) && e == CryptoError::EncryptionPaddingError),
            !self@.locked && has_key(self@.keys, key_id@) && data@.len() <= BLOCK_SIZE ==> (r matches Ok(c) && c@ == masked(data@)),
    {
        let _key = self.retrieve_key(key_id)?;
        if data.len() > BLOCK_SIZE {
            return Err(CryptoError::EncryptionPaddingError);
        }
        Ok(mask(data))
    }

    /// Decrypts a block under the key `key_id`. Refused while locked and for
    /// an unknown key.
    pub fn decrypt_block(&self, data: &[u8], key_id: &str) -> (r: Result<Vec<u8>, CryptoError>)
        requires
            self.wf(),
        ensures
            self@.locked ==> (r matches Err(e) && e == CryptoError::VaultLocked),
            !self@.locked && !has_key(self@.keys, key_id@) ==> (r matches Err(e) && e == CryptoError::DecryptionIntegrityFailure),
            !self@.locked && has_key(self@.keys, key_id@) ==> (r matches Ok(c) && c@ == masked(data@)),
    {
        let _key = self.retrieve_key(key_id)?;
        Ok(mask(data))
    }
}

/// Dropping one key keeps the ids distinct.
proof fn lemma_ids_remove(v: Seq<KeyView>, k: int)
    requires
        ids_distinct(v),
        0 <= k < v.len(),
    ensures
        ids_distinct(v.remove(k)),
{
    let w = v.remove(k);
    assert forall|i: int, j: int| 0 <= i < w.len() && 0 <= j < w.len() && i != j implies w[i].id != w[j].id by {
        let a = if i < k { i } else { i + 1 };
        let b = if j < k { j } else { j + 1 };
        assert(w[i] == v[a] && w[j] == v[b]);
    }
}

/// Encryption and decryption of blocks, as an outside provider offers them.
pub trait EncryptionProvider {
    fn encrypt(&self, data: &[u8]) -> Result<Vec<u8>, CryptoError>;

    fn decrypt(&self, data: &[u8]) -> Result<Vec<u8>, CryptoError>;
}

pub struct HardwareSecurityModule {
    pub device_id: String,
    pub firmware_version: String,
    connected: bool,
}

impl HardwareSecurityModule {
    pub closed spec fn is_connected(&self) -> bool {
        self.connected
    }

    /// The device id and firmware version.
    pub closed spec fn identity(&self) -> (Seq<char>, Seq<char>) {
        (self.device_id@, self.firmware_version@)
    }

    /// Connects to the module.
    pub fn connect() -> (r: Result<HardwareSecurityModule, CryptoError>)
        ensures
            r matches Ok(h) && h.identity() == ("HSM-VIRTUAL-01"@, "2.1.0"@) && h.is_connected(),
    {
        Ok(HardwareSecurityModule {
            device_id: String::from_str("HSM-VIRTUAL-01"),
            firmware_version: String::from_str("2.1.0"),
            connected: true,
        })
    }

    /// Signs `payload`: the signature names its length. Refused when the
    /// module is not connected.
    pub fn sign_transaction(&self, payload: &[u8]) -> (r: Result<String, CryptoError>)
        ensures
            !self.is_connected() ==> r == Err::<String, CryptoError>(CryptoError::HardwareSecurityModuleUnreachable),
            self.is_connected() ==> (r matches Ok(s) && s@ == "SIG-"@ + decimal_text(payload@.len())),
    {
        if !self.connected {
            return Err(CryptoError::HardwareSecurityModuleUnreachable);
        }
        let mut out = String::from_str("SIG-");
        let n = decimal(payload.len() as u64);
        push_text(&mut out, n.as_str());
        Ok(out)
    }
}

} // verus!
