//! Signature-based threat scanning.
use vstd::prelude::*;

verus! {

/// Sensitivity above which high-entropy content is reported.
pub const PACKER_SENSITIVITY: u8 = 5;

#[derive(Debug, Clone, Copy, PartialEq, Eq, Structural)]
pub enum ThreatLevel {
    Safe,
    Low,
    Moderate,
    Critical,
    Severe,
}

#[derive(Debug)]
pub struct ThreatSignature {
    id: String,
    pattern: Vec<u8>,
    level: ThreatLevel,
    description: String,
    active: bool,
}

pub ghost struct SignatureView {
    pub id: Seq<char>,
    pub pattern: Seq<u8>,
    pub level: ThreatLevel,
    pub description: Seq<char>,
    pub active: bool,
}

impl View for ThreatSignature {
    type V = SignatureView;

    closed spec fn view(&self) -> SignatureView {
        SignatureView {
            id: self.id@,
            pattern: self.pattern@,
            level: self.level,
            description: self.description@,
            active: self.active,
        }
    }
}

impl ThreatSignature {
    pub fn id(&self) -> (r: &str)
        ensures
            r@ == self@.id,
    {
        self.id.as_str()
    }

    pub fn level(&self) -> (r: ThreatLevel)
        ensures
            r == self@.level,
    {
        self.level
    }
}

/// `needle` occurs in `haystack` as a run of consecutive bytes.
pub open spec fn occurs(haystack: Seq<u8>, needle: Seq<u8>) -> bool {
    exists|i: int| 0 <= i && i + needle.len() <= haystack.len() && #[trigger] haystack.subrange(i, i + needle.len()) == needle
}

/// The signature that the bundled database holds.
pub open spec fn bundled_signature() -> SignatureView {
    SignatureView {
        id: "SIG-9092"@,
        pattern: seq![0xDEu8, 0xADu8, 0xBEu8, 0xEFu8],
        level: ThreatLevel::Critical,
        description: "Remote Shell Execution Buffer Overflow"@,
        active: true,
    }
}

pub struct HeuristicEngine {
    sensitivity: u8,
    known_signatures: Vec<ThreatSignature>,
    whitelisted_hashes: Vec<String>,
}

impl HeuristicEngine {
    pub closed spec fn signatures(&self) -> Seq<SignatureView> {
        self.known_signatures@.map_values(|s: ThreatSignature| s@)
    }

    pub closed spec fn whitelist(&self) -> Seq<Seq<char>> {
        self.whitelisted_hashes@.map_values(|s: String| s@)
    }

    pub closed spec fn sensitivity_spec(&self) -> u8 {
        self.sensitivity
    }

    /// Signature ids are distinct and every pattern has at least one byte.
    pub open spec fn wf(&self) -> bool {
        &&& forall|i: int, j: int| 0 <= i < j < self.signatures().len() ==> self.signatures()[i].id != self.signatures()[j].id
        &&& forall|i: int| 0 <= i < self.signatures().len() ==> self.signatures()[i].pattern.len() > 0
    }

    pub fn new(sensitivity: u8) -> (r: HeuristicEngine)
        ensures
            r.wf(),
            r.sensitivity_spec() == sensitivity,
            r.signatures().len() == 0,
            r.whitelist().len() == 0,
    {
        let r = HeuristicEngine { sensitivity, known_signatures: Vec::new(), whitelisted_hashes: Vec::new() };
        assert(r.signatures() =~= Seq::<SignatureView>::empty());
        assert(r.whitelist() =~= Seq::<Seq<char>>::empty());
        r
    }

    /// Loads the bundled signature database (the path names where it would
    /// be read from); its signature replaces one with the same id. Returns
    /// the number of known signatures.
    pub fn load_database(&mut self, db_path: &str) -> (r: usize)
        requires
            old(self).wf(),
        ensures
            final(self).wf(),
            r == final(self).signatures().len(),
            final(self).signatures().contains(bundled_signature()),
            forall|i: int| 0 <= i < old(self).signatures().len() && old(self).signatures()[i].id != bundled_signature().id
                ==> final(self).signatures().contains(old(self).signatures()[i]),
            forall|s: SignatureView| final(self).signatures().contains(s) ==> s == bundled_signature() || old(self).signatures().contains(s),
            final(self).whitelist() == old(self).whitelist(),
    {
        let mut pattern: Vec<u8> = Vec::new();
        pattern.push(0xDE);
        pattern.push(0xAD);
        pattern.push(0xBE);
        pattern.push(0xEF);
        assert(pattern@ =~= seq![0xDEu8, 0xADu8, 0xBEu8, 0xEFu8]);
        let sig = ThreatSignature {
            id: String::from_str("SIG-9092"),
            pattern,
            level: ThreatLevel::Critical,
            description: String::from_str("Remote Shell Execution Buffer Overflow"),
            active: true,
        };
        assert(sig@ == bundled_signature());
        let ghost old_sigs = self.signatures();
        let mut i: usize = 0;
        let mut found: Option<usize> = None;
        while i < self.known_signatures.len()
            invariant
                i <= self.known_signatures@.len(),
                self.signatures() == old_sigs,
                sig@ == bundled_signature(),
                found is None ==> forall|j: int| 0 <= j < i ==> old_sigs[j].id != "SIG-9092"@,
                found matches Some(f) ==> f < old_sigs.len() && old_sigs[f as int].id == "SIG-9092"@,
            decreases self.known_signatures@.len() - i,
        {
            assert(old_sigs[i as int] == self.known_signatures@[i as int]@);
            if found.is_none() && self.known_signatures[i].id == sig.id {
                found = Some(i);
            }
            i = i + 1;
        }
        match found {
            Some(f) => {
                self.known_signatures.set(f, sig);
                assert(self.signatures() =~= old_sigs.update(f as int, bundled_signature()));
                assert(self.signatures()[f as int] == bundled_signature());
                assert forall|s: SignatureView| self.signatures().contains(s) implies s == bundled_signature() || old_sigs.contains(s) by {
                    let w = choose|w: int| 0 <= w < self.signatures().len() && self.signatures()[w] == s;
                    if w != f as int {
                        assert(old_sigs[w] == s);
                    }
                }
                assert forall|k: int| 0 <= k < old_sigs.len() && old_sigs[k].id != bundled_signature().id
                    implies self.signatures().contains(old_sigs[k]) by {
                    assert(self.signatures()[k] == old_sigs[k]);
                }
            },
            None => {
                self.known_signatures.push(sig);
                assert(self.signatures() =~= old_sigs.push(bundled_signature()));
                assert(self.signatures()[old_sigs.len() as int] == bundled_signature());
                assert forall|s: SignatureView| self.signatures().contains(s) implies s == bundled_signature() || old_sigs.contains(s) by {
                    let w = choose|w: int| 0 <= w < self.signatures().len() && self.signatures()[w] == s;
                    if w < old_sigs.len() {
                        assert(old_sigs[w] == s);
                    }
                }
                assert forall|k: int| 0 <= k < old_sigs.len() && old_sigs[k].id != bundled_signature().id
                    implies self.signatures().contains(old_sigs[k]) by {
                    assert(self.signatures()[k] == old_sigs[k]);
                }
            },
        }
        self.known_signatures.len()
    }

    /// Whether `needle` occurs in `haystack`.
    pub fn find_subsequence(&self, haystack: &[u8], needle: &[u8]) -> (r: bool)
        requires
            needle@.len() > 0,
        ensures
            r == occurs(haystack@, needle@),
    {
        if needle.len() > haystack.len() {
            return false;
        }
        let hl = haystack.len();
        let last = hl - needle.len();
        let mut i: usize = 0;
        while i <= last
            invariant
                needle@.len() > 0,
                needle@.len() <= haystack@.len(),
                hl == haystack@.len(),
                last == haystack@.len() - needle@.len(),
                i <= last + 1,
                forall|k: int| 0 <= k < i ==> #[trigger] haystack@.subrange(k, k + needle@.len()) != needle@,
            decreases last + 1 - i,
        {
            let mut j: usize = 0;
            let mut same = true;
            while j < needle.len()
                invariant
                    i <= last,
                    needle@.len() <= haystack@.len(),
                    hl == haystack@.len(),
                    last == haystack@.len() - needle@.len(),
                    j <= needle@.len(),
                    same == (forall|k: int| 0 <= k < j ==> haystack@[i + k] == needle@[k]),
                decreases needle@.len() - j,
            {
                if haystack[i + j] != needle[j] {
                    same = false;
                }
                j = j + 1;
            }
            if same {
                assert(haystack@.subrange(i as int, i + needle@.len()) =~= needle@);
                return true;
            }
            proof {
                let k = choose|k: int| 0 <= k < needle@.len() && haystack@[i + k] != needle@[k];
                assert(haystack@.subrange(i as int, i + needle@.len())[k] != needle@[k]);
            }
            i = i + 1;
        }
        false
    }

    /// Ids of the active signatures whose pattern occurs in `data`, in the
    /// order they are known.
    pub fn matching_signatures(&self, data: &[u8]) -> (r: Vec<String>)
        requires
            self.wf(),
        ensures
            r@.map_values(|s: String| s@) == self.signatures().filter(|s: SignatureView| s.active && occurs(data@, s.pattern))
                .map_values(|s: SignatureView| s.id),
    {
        let ghost pred = |s: SignatureView| s.active && occurs(data@, s.pattern);
        let mut out: Vec<String> = Vec::new();
        let mut i: usize = 0;
        while i < self.known_signatures.len()
            invariant
                self.wf(),
                i <= self.known_signatures@.len(),
                pred == (|s: SignatureView| s.active && occurs(data@, s.pattern)),
                out@.map_values(|s: String| s@) == self.signatures().subrange(0, i as int).filter(pred).map_values(|s: SignatureView| s.id),
            decreases self.known_signatures@.len() - i,
        {
            let sig = &self.known_signatures[i];
            let ghost s0 = self.signatures().subrange(0, i as int);
            assert(self.signatures()[i as int] == sig@);
            assert(self.signatures().subrange(0, i + 1) =~= s0.push(sig@));
            proof { s0.lemma_filter_push(sig@, pred); }
            if sig.active && self.find_subsequence(data, sig.pattern.as_slice()) {
                let ghost prev = out@;
                out.push(sig.id.clone());
                assert(out@.map_values(|s: String| s@) =~= prev.map_values(|s: String| s@).push(sig@.id));
                assert(s0.filter(pred).push(sig@).map_values(|s: SignatureView| s.id) =~= s0.filter(pred).map_values(|s: SignatureView| s.id).push(sig@.id));
            }
            i = i + 1;
        }
        assert(self.signatures().subrange(0, self.signatures().len() as int) =~= self.signatures());
        out
    }

    /// Whether content whose entropy is judged high is reported as packed:
    /// only above `PACKER_SENSITIVITY`.
    pub fn flags_packer(&self, high_entropy: bool) -> (r: bool)
        ensures
            r == (high_entropy && self.sensitivity_spec() > PACKER_SENSITIVITY),
    {
        high_entropy && self.sensitivity > PACKER_SENSITIVITY
    }

    /// Adds `hash` to the whitelist; each hash is kept once.
    pub fn whitelist_hash(&mut self, hash: String)
        ensures
            final(self).whitelist().contains(hash@),
            forall|h: Seq<char>| final(self).whitelist().contains(h) <==> (old(self).whitelist().contains(h) || h == hash@),
            final(self).signatures() == old(self).signatures(),
    {
        let mut i: usize = 0;
        while i < self.whitelisted_hashes.len()
            invariant
                i <= self.whitelisted_hashes@.len(),
                forall|j: int| 0 <= j < i ==> self.whitelist()[j] != hash@,
            decreases self.whitelisted_hashes@.len() - i,
        {
            assert(self.whitelist()[i as int] == self.whitelisted_hashes@[i as int]@);
            if self.whitelisted_hashes[i] == hash {
                assert(self.whitelist()[i as int] == hash@);
                return;
            }
            i = i + 1;
        }
        let ghost prev = self.whitelist();
        let ghost hv = hash@;
        self.whitelisted_hashes.push(hash);
        assert(self.whitelist() =~= prev.push(hv));
        assert(self.whitelist()[prev.len() as int] == hv);
        proof {
            assert forall|h: Seq<char>| self.whitelist().contains(h) <==> (prev.contains(h) || h == hv) by {
                crate::seqs::lemma_push_contains(prev, hv, h);
            }
        }
    }

    /// Fetches new definitions from `source_url`; refused for an empty
    /// address.
    pub fn update_definitions(&mut self, source_url: &str) -> (r: Result<bool, String>)
        ensures
            source_url@.len() == 0 ==> (r matches Err(e) && e@ == "Invalid update source"@),
            source_url@.len() > 0 ==> r == Ok::<bool, String>(true),
            final(self).signatures() == old(self).signatures(),
            final(self).whitelist() == old(self).whitelist(),
            final(self).sensitivity_spec() == old(self).sensitivity_spec(),
    {
        if source_url.is_empty() {
            return Err(String::from_str("Invalid update source"));
        }
        Ok(true)
    }
}

} // verus!
