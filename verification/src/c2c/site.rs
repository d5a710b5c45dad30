//! Access sites: instructions, or instructions with their callers, that access
//! memory.
use crate::c2c::classes::Classifier;
use crate::c2c::types;
use crate::c2c::types::{C2cCallchainFrame, C2cSample, MappedInstruction};
use crate::fnv;
use crate::text;
use vstd::prelude::*;
use vstd::utf8::*;

verus! {

/// What makes an instruction the same across processes: its place in a file,
/// or its address where that place is not known.
#[derive(Debug, Clone, PartialEq, Eq, Hash)]
pub struct C2cInstructionIdentity {
    pub mapped: Option<MappedInstruction>,
    pub raw_address: u64,
}

/// An instruction's identity, as mathematics.
#[verifier::ext_equal]
pub struct IdentityFacts {
    pub mapped: Option<types::InstructionFacts>,
    pub raw_address: u64,
}

/// The identity of an instruction.
pub open spec fn identity(address: u64, mapped: Option<types::InstructionFacts>) -> IdentityFacts {
    IdentityFacts {
        mapped,
        raw_address: if mapped is Some {
            0
        } else {
            address
        },
    }
}

impl C2cInstructionIdentity {
    /// What the identity is.
    pub open spec fn facts(self) -> IdentityFacts {
        IdentityFacts {
            mapped: types::opt_instruction(self.mapped),
            raw_address: self.raw_address,
        }
    }

    /// The identity of an instruction.
    pub fn new(instruction_address: u64, mapped: &Option<MappedInstruction>) -> (r: Self)
        ensures
            r.facts() == identity(instruction_address, types::opt_instruction(*mapped)),
    {
        C2cInstructionIdentity {
            mapped: types::share_instruction(mapped),
            raw_address: if mapped.is_some() {
                0
            } else {
                instruction_address
            },
        }
    }

    /// The identity of a caller.
    pub fn from_callchain(frame: &C2cCallchainFrame) -> (r: Self)
        ensures
            r.facts() == identity(
                frame.instruction_address,
                types::opt_instruction(frame.mapped_instruction),
            ),
    {
        C2cInstructionIdentity::new(frame.instruction_address, &frame.mapped_instruction)
    }
}

/// What identities are.
pub open spec fn identities(s: Seq<C2cInstructionIdentity>) -> Seq<IdentityFacts> {
    Seq::new(s.len(), |i: int| s[i].facts())
}

/// The identities of callers.
pub open spec fn chain_identities(chain: Seq<types::CallerFacts>) -> Seq<IdentityFacts> {
    Seq::new(chain.len(), |i: int| identity(chain[i].instruction_address, chain[i].mapped))
}

/// What makes an access site: its instruction, and its callers where they count.
#[derive(Debug, Clone, PartialEq, Eq, Hash)]
pub struct C2cSiteKey {
    pub instruction: C2cInstructionIdentity,
    pub callchain: Option<Vec<C2cInstructionIdentity>>,
}

/// An access site, as mathematics.
#[verifier::ext_equal]
pub struct SiteFacts {
    pub instruction: IdentityFacts,
    pub callchain: Option<Seq<IdentityFacts>>,
}

/// The identity of a sample's instruction.
pub open spec fn instruction_of(s: C2cSample) -> IdentityFacts {
    identity(s.instruction_address, types::opt_instruction(s.mapped_instruction))
}

/// The identities of a sample's callers.
pub open spec fn chain_of(s: C2cSample) -> Seq<IdentityFacts> {
    chain_identities(types::callers(s.callchain@))
}

/// The access site of a sample.
pub open spec fn site_of(s: C2cSample, by_callchain: bool) -> SiteFacts {
    SiteFacts {
        instruction: instruction_of(s),
        callchain: if by_callchain {
            Some(chain_of(s))
        } else {
            None
        },
    }
}

/// The identities of callers.
fn identify_chain(frames: &Vec<C2cCallchainFrame>) -> (r: Vec<C2cInstructionIdentity>)
    ensures
        identities(r@) == chain_identities(types::callers(frames@)),
{
    let mut r: Vec<C2cInstructionIdentity> = Vec::new();
    let mut i: usize = 0;
    while i < frames.len()
        invariant
            i <= frames@.len(),
            r@.len() == i,
            forall|k: int|
                0 <= k < i ==> (#[trigger] r@[k]).facts() == chain_identities(
                    types::callers(frames@),
                )[k],
        decreases frames@.len() - i,
    {
        r.push(C2cInstructionIdentity::from_callchain(&frames[i]));
        i += 1;
    }
    assert(identities(r@) =~= chain_identities(types::callers(frames@)));
    r
}

impl C2cSiteKey {
    /// What the site is.
    pub open spec fn facts(self) -> SiteFacts {
        SiteFacts {
            instruction: self.instruction.facts(),
            callchain: match self.callchain {
                Some(chain) => Some(identities(chain@)),
                None => None,
            },
        }
    }

    /// The access site of a sample.
    pub fn for_sample(sample: &C2cSample, group_by_callchain: bool) -> (r: Self)
        ensures
            r.facts() == site_of(*sample, group_by_callchain),
    {
        C2cSiteKey {
            instruction: C2cInstructionIdentity::new(
                sample.instruction_address,
                &sample.mapped_instruction,
            ),
            callchain: if group_by_callchain {
                Some(identify_chain(&sample.callchain))
            } else {
                None
            },
        }
    }
}

/// The low bytes of a number, the lowest first.
pub open spec fn low_bytes(n: nat, count: nat) -> Seq<u8>
    decreases count,
{
    if count == 0 {
        Seq::empty()
    } else {
        seq![(n % 256) as u8] + low_bytes(n / 256, (count - 1) as nat)
    }
}

/// The hash after a chunk of bytes and a separator.
pub open spec fn chunk(hash: u64, bytes: Seq<u8>) -> u64 {
    fnv::step(fnv::over(hash, bytes), 0xff)
}

/// The hash after a text and a separator.
pub open spec fn text_chunk(hash: u64, s: Seq<char>) -> u64 {
    chunk(hash, encode_utf8(s))
}

/// The hash after the identity of an instruction. The build id stands for the
/// path where it is known.
pub open spec fn with_identity(hash: u64, i: IdentityFacts) -> u64 {
    match i.mapped {
        Some(m) => chunk(
            text_chunk(
                text_chunk(hash, "mapped"@),
                match m.build_id {
                    Some(build_id) => build_id,
                    None => m.path,
                },
            ),
            low_bytes(m.relative_address as nat, 8),
        ),
        None => chunk(text_chunk(hash, "raw"@), low_bytes(i.raw_address as nat, 8)),
    }
}

/// The hash after the identities of callers.
pub open spec fn with_identities(hash: u64, chain: Seq<IdentityFacts>) -> u64
    decreases chain.len(),
{
    if chain.len() == 0 {
        hash
    } else {
        with_identity(with_identities(hash, chain.drop_last()), chain.last())
    }
}

/// The hash of an access site.
pub open spec fn site_hash(site: SiteFacts) -> u64 {
    let hash = with_identity(fnv::FNV_OFFSET, site.instruction);
    match site.callchain {
        Some(chain) => with_identities(text_chunk(hash, "callchain"@), chain),
        None => hash,
    }
}

/// The identifier of an access site, the same in every recording.
pub open spec fn site_id(site: SiteFacts) -> Seq<char> {
    "site:"@ + text::padded_hex(site_hash(site) as nat, 16)
}

/// The hash after a text and a separator.
fn hash_text_chunk(hash: u64, s: &str) -> (r: u64)
    ensures
        r == text_chunk(hash, s@),
{
    fnv::hash_byte(fnv::hash_bytes(hash, s.as_bytes()), 0xff)
}

/// The hash after the eight bytes of a number and a separator.
fn hash_number_chunk(hash: u64, n: u64) -> (r: u64)
    ensures
        r == chunk(hash, low_bytes(n as nat, 8)),
{
    let ghost bytes = low_bytes(n as nat, 8);
    proof {
        lemma_low_bytes_len(n as nat, 8);
    }
    let mut h: u64 = hash;
    let mut rest: u64 = n;
    let mut done: u8 = 0;
    assert(bytes.take(0) =~= Seq::<u8>::empty());
    assert(bytes.skip(0) =~= bytes);
    while done < 8
        invariant
            done <= 8,
            bytes.len() == 8,
            bytes.skip(done as int) == low_bytes(rest as nat, (8 - done) as nat),
            h == fnv::over(hash, bytes.take(done as int)),
        decreases 8 - done,
    {
        let byte: u8 = (rest % 256) as u8;
        proof {
            assert(bytes.skip(done as int)[0] == byte);
            assert(bytes.take(done + 1).drop_last() =~= bytes.take(done as int));
            assert(bytes.skip(done + 1) =~= bytes.skip(done as int).skip(1));
            assert(low_bytes(rest as nat, (8 - done) as nat).skip(1) =~= low_bytes(
                (rest / 256) as nat,
                (8 - done - 1) as nat,
            ));
        }
        h = fnv::hash_byte(h, byte);
        rest = rest / 256;
        done += 1;
    }
    assert(bytes.take(8) =~= bytes);
    fnv::hash_byte(h, 0xff)
}

proof fn lemma_low_bytes_len(n: nat, count: nat)
    ensures
        low_bytes(n, count).len() == count,
    decreases count,
{
    if count > 0 {
        lemma_low_bytes_len(n / 256, (count - 1) as nat);
    }
}

/// The hash after the identity of an instruction.
fn hash_identity(hash: u64, raw_address: u64, mapped: &Option<MappedInstruction>) -> (r: u64)
    ensures
        r == with_identity(
            hash,
            (IdentityFacts { mapped: types::opt_instruction(*mapped), raw_address }),
        ),
{
    match mapped {
        Some(m) => {
            let start: u64 = hash_text_chunk(hash, "mapped");
            let file: u64 = match &m.build_id {
                Some(build_id) => hash_text_chunk(start, build_id.as_str()),
                None => hash_text_chunk(start, m.path.as_str()),
            };
            hash_number_chunk(file, m.relative_address)
        },
        None => hash_number_chunk(hash_text_chunk(hash, "raw"), raw_address),
    }
}

/// The hash of a sample's access site.
fn hash_site(sample: &C2cSample, by_callchain: bool) -> (r: u64)
    ensures
        r == site_hash(site_of(*sample, by_callchain)),
{
    let first: u64 = hash_identity(
        fnv::FNV_OFFSET,
        sample.instruction_address,
        &sample.mapped_instruction,
    );
    if !by_callchain {
        return first;
    }
    let ghost chain = chain_of(*sample);
    let start: u64 = hash_text_chunk(first, "callchain");
    let mut hash: u64 = start;
    let frames: &Vec<C2cCallchainFrame> = &sample.callchain;
    let mut i: usize = 0;
    while i < frames.len()
        invariant
            i <= frames@.len(),
            chain == chain_identities(types::callers(frames@)),
            hash == with_identities(start, chain.take(i as int)),
        decreases frames@.len() - i,
    {
        assert(chain.take(i + 1).drop_last() =~= chain.take(i as int));
        hash = hash_identity(hash, frames[i].instruction_address, &frames[i].mapped_instruction);
        i += 1;
    }
    assert(chain.take(chain.len() as int) =~= chain);
    hash
}

/// The identifier that a hash gives.
fn id_text(hash: u64) -> (r: String)
    ensures
        r@ == "site:"@ + text::padded_hex(hash as nat, 16),
{
    let mut id = "site:".to_string();
    text::push_padded_hex(&mut id, hash, 16);
    id
}

/// The identifier of a sample's access site.
pub fn sample_site_id(sample: &C2cSample, by_callchain: bool) -> (r: String)
    ensures
        r@ == site_id(site_of(*sample, by_callchain)),
{
    id_text(hash_site(sample, by_callchain))
}

/// The identifier of an access site, the same in every recording.
pub fn c2c_site_id(key: &C2cSiteKey) -> (r: String)
    ensures
        r@ == site_id(key.facts()),
{
    let first: u64 = hash_identity(
        fnv::FNV_OFFSET,
        key.instruction.raw_address,
        &key.instruction.mapped,
    );
    match &key.callchain {
        Some(chain) => {
            let start: u64 = hash_text_chunk(first, "callchain");
            let mut hash: u64 = start;
            let mut i: usize = 0;
            while i < chain.len()
                invariant
                    i <= chain@.len(),
                    hash == with_identities(start, identities(chain@).take(i as int)),
                decreases chain@.len() - i,
            {
                assert(identities(chain@).take(i + 1).drop_last() =~= identities(chain@).take(
                    i as int,
                ));
                hash = hash_identity(hash, chain[i].raw_address, &chain[i].mapped);
                i += 1;
            }
            assert(identities(chain@).take(chain@.len() as int) =~= identities(chain@));
            id_text(hash)
        },
        None => id_text(first),
    }
}

/// The site through which a sample answers to an address or an identifier.
pub open spec fn selected(
    s: C2cSample,
    instruction_address: Option<u64>,
    id: Option<Seq<char>>,
) -> Option<SiteFacts> {
    if instruction_address == Some(s.instruction_address) {
        Some(site_of(s, false))
    } else {
        match id {
            Some(id) => if site_id(site_of(s, false)) == id {
                Some(site_of(s, false))
            } else if site_id(site_of(s, true)) == id {
                Some(site_of(s, true))
            } else {
                None
            },
            None => None,
        }
    }
}

/// Whether the site through which a sample answers counts its callers, where
/// the sample answers at all.
pub(crate) fn answers(
    sample: &C2cSample,
    instruction_address: Option<u64>,
    site_id: Option<&str>,
) -> (r: Option<bool>)
    ensures
        match r {
            Some(by_callchain) => selected(*sample, instruction_address, text::opt_str(site_id))
                == Some(site_of(*sample, by_callchain)),
            None => selected(*sample, instruction_address, text::opt_str(site_id)) is None,
        },
{
    if let Some(address) = instruction_address {
        if sample.instruction_address == address {
            return Some(false);
        }
    }
    match site_id {
        Some(id) => {
            if text::text_eq(sample_site_id(sample, false).as_str(), id) {
                Some(false)
            } else if text::text_eq(sample_site_id(sample, true).as_str(), id) {
                Some(true)
            } else {
                None
            }
        },
        None => None,
    }
}

/// The site through which a sample answers to an address or an identifier.
pub fn select_c2c_site_key(
    sample: &C2cSample,
    instruction_address: Option<u64>,
    site_id: Option<&str>,
) -> (r: Option<C2cSiteKey>)
    ensures
        match r {
            Some(key) => selected(*sample, instruction_address, text::opt_str(site_id)) == Some(
                key.facts(),
            ),
            None => selected(*sample, instruction_address, text::opt_str(site_id)) is None,
        },
{
    match answers(sample, instruction_address, site_id) {
        Some(by_callchain) => Some(C2cSiteKey::for_sample(sample, by_callchain)),
        None => None,
    }
}

/// Whether two instructions have the same identity.
fn same_identity(
    a: u64,
    mapped_a: &Option<MappedInstruction>,
    b: u64,
    mapped_b: &Option<MappedInstruction>,
) -> (r: bool)
    ensures
        r == (identity(a, types::opt_instruction(*mapped_a)) == identity(
            b,
            types::opt_instruction(*mapped_b),
        )),
{
    match (mapped_a, mapped_b) {
        (Some(x), Some(y)) => x.same(y),
        (None, None) => a == b,
        _ => false,
    }
}

/// Whether two callchains have the same identities.
fn same_chain(a: &Vec<C2cCallchainFrame>, b: &Vec<C2cCallchainFrame>) -> (r: bool)
    ensures
        r == (chain_identities(types::callers(a@)) == chain_identities(types::callers(b@))),
{
    let ghost x = chain_identities(types::callers(a@));
    let ghost y = chain_identities(types::callers(b@));
    if a.len() != b.len() {
        assert(x.len() != y.len());
        return false;
    }
    let mut i: usize = 0;
    while i < a.len()
        invariant
            i <= a@.len() == b@.len(),
            x == chain_identities(types::callers(a@)),
            y == chain_identities(types::callers(b@)),
            forall|k: int| 0 <= k < i ==> #[trigger] x[k] == y[k],
        decreases a@.len() - i,
    {
        if !same_identity(
            a[i].instruction_address,
            &a[i].mapped_instruction,
            b[i].instruction_address,
            &b[i].mapped_instruction,
        ) {
            assert(x[i as int] != y[i as int]);
            return false;
        }
        i += 1;
    }
    assert(x =~= y);
    true
}

/// Samples of one access site.
pub struct BySite {
    pub by_callchain: bool,
}

impl Classifier for BySite {
    type Key = SiteFacts;

    open spec fn key(&self, s: C2cSample) -> SiteFacts {
        site_of(s, self.by_callchain)
    }

    open spec fn bucket(k: SiteFacts) -> u64 {
        site_hash(k)
    }

    fn hash(&self, s: &C2cSample) -> (r: u64) {
        hash_site(s, self.by_callchain)
    }

    fn same(&self, a: &C2cSample, other: &Self, b: &C2cSample) -> (r: bool) {
        if self.by_callchain != other.by_callchain {
            return false;
        }
        let r: bool = same_identity(
            a.instruction_address,
            &a.mapped_instruction,
            b.instruction_address,
            &b.mapped_instruction,
        ) && (!self.by_callchain || same_chain(&a.callchain, &b.callchain));
        assert(r ==> self.key(*a) =~= other.key(*b));
        r
    }
}

/// Samples with the same callers.
pub struct ByCallchain;

impl Classifier for ByCallchain {
    type Key = Seq<IdentityFacts>;

    open spec fn key(&self, s: C2cSample) -> Seq<IdentityFacts> {
        chain_of(s)
    }

    open spec fn bucket(k: Seq<IdentityFacts>) -> u64 {
        with_identities(fnv::FNV_OFFSET, k)
    }

    fn hash(&self, s: &C2cSample) -> (r: u64) {
        let ghost chain = chain_of(*s);
        let frames: &Vec<C2cCallchainFrame> = &s.callchain;
        let mut hash: u64 = fnv::FNV_OFFSET;
        let mut i: usize = 0;
        while i < frames.len()
            invariant
                i <= frames@.len(),
                chain == chain_identities(types::callers(frames@)),
                hash == with_identities(fnv::FNV_OFFSET, chain.take(i as int)),
            decreases frames@.len() - i,
        {
            assert(chain.take(i + 1).drop_last() =~= chain.take(i as int));
            hash =
            hash_identity(hash, frames[i].instruction_address, &frames[i].mapped_instruction);
            i += 1;
        }
        assert(chain.take(chain.len() as int) =~= chain);
        hash
    }

    fn same(&self, a: &C2cSample, other: &Self, b: &C2cSample) -> (r: bool) {
        same_chain(&a.callchain, &b.callchain)
    }
}

/// The identifier of an access site, with or without its callers, does not
/// depend on where a file was mapped, nor on its path where its build id is known.
pub proof fn law_site_ids_are_stable(a: C2cSample, b: C2cSample)
    requires
        a.mapped_instruction matches Some(m) && m.build_id is Some,
        b.mapped_instruction matches Some(m) && m.build_id is Some,
        types::opt_shared(a.mapped_instruction->0.build_id) == types::opt_shared(
            b.mapped_instruction->0.build_id,
        ),
        a.mapped_instruction->0.relative_address == b.mapped_instruction->0.relative_address,
    ensures
        site_id(site_of(a, false)) == site_id(site_of(b, false)),
        same_places(types::callers(a.callchain@), types::callers(b.callchain@)) ==> site_id(
            site_of(a, true),
        ) == site_id(site_of(b, true)),
{
    let chain_a = types::callers(a.callchain@);
    let chain_b = types::callers(b.callchain@);
    if same_places(chain_a, chain_b) {
        let hash = text_chunk(
            with_identity(fnv::FNV_OFFSET, instruction_of(a)),
            "callchain"@,
        );
        lemma_chain_hash(hash, chain_a, chain_b, chain_a.len() as int);
        assert(chain_of(a).take(chain_a.len() as int) =~= chain_of(a));
        assert(chain_of(b).take(chain_b.len() as int) =~= chain_of(b));
    }
}

/// Whether callers stand at the same places in files with known build ids.
pub open spec fn same_places(a: Seq<types::CallerFacts>, b: Seq<types::CallerFacts>) -> bool {
    &&& a.len() == b.len()
    &&& forall|i: int|
        #![trigger a[i], b[i]]
        0 <= i < a.len() ==> {
            &&& a[i].mapped matches Some(m) && m.build_id is Some
            &&& b[i].mapped matches Some(m) && m.build_id is Some
            &&& a[i].mapped->0.build_id == b[i].mapped->0.build_id
            &&& a[i].mapped->0.relative_address == b[i].mapped->0.relative_address
        }
}

proof fn lemma_chain_hash(
    hash: u64,
    a: Seq<types::CallerFacts>,
    b: Seq<types::CallerFacts>,
    n: int,
)
    requires
        same_places(a, b),
        0 <= n <= a.len(),
    ensures
        with_identities(hash, chain_identities(a).take(n)) == with_identities(
            hash,
            chain_identities(b).take(n),
        ),
    decreases n,
{
    if n > 0 {
        lemma_chain_hash(hash, a, b, n - 1);
        let x = chain_identities(a).take(n);
        let y = chain_identities(b).take(n);
        assert(x.drop_last() =~= chain_identities(a).take(n - 1));
        assert(y.drop_last() =~= chain_identities(b).take(n - 1));
        assert(a[n - 1].mapped is Some && b[n - 1].mapped is Some);
    } else {
        assert(chain_identities(a).take(0) =~= chain_identities(b).take(0));
    }
}

/// The identifier of a sample's access site, with or without its callers,
/// selects that sample.
pub proof fn law_site_ids_select_their_accesses(s: C2cSample, by_callchain: bool)
    ensures
        selected(s, None, Some(site_id(site_of(s, by_callchain)))) is Some,
{
}

}
