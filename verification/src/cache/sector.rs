//! Sector partitioning: the members of a corpus are spread over a fixed
//! number of hash buckets, and each non-empty bucket becomes a sector whose
//! members are listed in a canonical order and summarised by a fingerprint.
use vstd::prelude::*;
use vstd::utf8::encode_utf8;
use crate::cache::{corpus_cache_key, corpus_key, path_is_file};
use crate::hashing::{blake3_digest, decimal, digest_bytes, hash_text_hex, hex_lower, le_u64_prefix, le_value, push_decimal, to_hex_lower, blake3_hex};
use crate::order::{compare_chars, compare_lists, list_order, text_order, char_views};
use crate::paths::{components, components_of, file_name_chars, file_name_spec, join, path_join, strip_prefix_chars, strip_prefix_spec, views};
use crate::text::{chars_of, extend_str, string_of};

verus! {

/// The layout version of sector maps and of the material hashed into them.
pub const SECTOR_SCHEMA_VERSION: u32 = 1;

/// The bucket count of the default partition strategy.
pub const DEFAULT_SECTOR_BUCKETS: u16 = 32;

/// How members are spread over sectors.
#[derive(Debug, Clone, Copy, PartialEq, Eq, Structural)]
pub enum SectorPartitionStrategy {
    StableHash { bucket_count: u16 },
}

/// Whether a member is a file of the corpus or a synthetic entry.
#[derive(Debug, Clone, Copy, PartialEq, Eq, Structural)]
pub enum SectorProofKind {
    FileSystem,
    Synthetic,
}

/// The format of a sector's lexical index shard.
#[derive(Debug, Clone, Copy, PartialEq, Eq, Structural)]
pub enum SectorLexicalShardFormat {
    Bm25Bincode,
}

/// A partition strategy together with the number of members it spread.
#[derive(Debug, Clone, PartialEq, Eq)]
pub struct SectorPartition {
    pub strategy: SectorPartitionStrategy,
    pub member_count: usize,
}

/// What identifies a member inside its sector.
#[derive(Debug, Clone, PartialEq, Eq)]
pub struct SectorProofMaterial {
    pub member_key: String,
    pub relative_path: String,
    pub proof_kind: SectorProofKind,
    pub artifact_blob_key: String,
}

/// A member offered for partitioning: its path, kind and content key.
#[derive(Debug, Clone, PartialEq, Eq)]
pub struct SectorMemberInput {
    pub path: String,
    pub proof_kind: SectorProofKind,
    pub artifact_blob_key: String,
}

/// A summary of a sector's members.
#[derive(Debug, Clone, PartialEq, Eq)]
pub struct SectorMembershipSummary {
    pub member_count: usize,
    pub first_member_key: Option<String>,
    pub last_member_key: Option<String>,
    pub proof_fingerprint: String,
}

/// A reference to a stored lexical index shard.
#[derive(Debug, Clone, PartialEq, Eq)]
pub struct SectorLexicalShardRef {
    pub format: SectorLexicalShardFormat,
    pub key: String,
}

/// The index shards stored for a sector.
#[derive(Debug, Clone, PartialEq, Eq)]
pub struct SectorShardRefs {
    pub bm25: Option<SectorLexicalShardRef>,
}

/// One sector: its id, bucket, member summary, members and shards.
#[derive(Debug, Clone, PartialEq, Eq)]
pub struct SectorRecord {
    pub sector_id: String,
    pub bucket_ordinal: u16,
    pub membership: SectorMembershipSummary,
    pub proofs: Vec<SectorProofMaterial>,
    pub shards: SectorShardRefs,
}

/// The sectors of one corpus.
#[derive(Debug, Clone, PartialEq, Eq)]
pub struct SectorMap {
    pub schema_version: u32,
    pub corpus_key: String,
    pub partition: SectorPartition,
    pub sectors: Vec<SectorRecord>,
}

/// The abstract member proof.
pub struct ProofModel {
    pub member_key: Seq<char>,
    pub relative_path: Seq<char>,
    pub kind: SectorProofKind,
    pub blob: Seq<char>,
}

/// The abstract member input.
pub struct MemberModel {
    pub path: Seq<char>,
    pub kind: SectorProofKind,
    pub blob: Seq<char>,
}

impl View for SectorProofMaterial {
    type V = ProofModel;

    open spec fn view(&self) -> ProofModel {
        ProofModel {
            member_key: self.member_key@,
            relative_path: self.relative_path@,
            kind: self.proof_kind,
            blob: self.artifact_blob_key@,
        }
    }
}

impl View for SectorMemberInput {
    type V = MemberModel;

    open spec fn view(&self) -> MemberModel {
        MemberModel { path: self.path@, kind: self.proof_kind, blob: self.artifact_blob_key@ }
    }
}

/// The abstract views of a list of proofs.
pub open spec fn proof_views(s: Seq<SectorProofMaterial>) -> Seq<ProofModel> {
    s.map_values(|p: SectorProofMaterial| p@)
}

/// The abstract views of a list of member inputs.
pub open spec fn member_views(s: Seq<SectorMemberInput>) -> Seq<MemberModel> {
    s.map_values(|m: SectorMemberInput| m@)
}

/// The byte that stands for a proof kind in fingerprints.
pub open spec fn kind_code(kind: SectorProofKind) -> u8 {
    match kind {
        SectorProofKind::FileSystem => 1,
        SectorProofKind::Synthetic => 2,
    }
}

/// The number of buckets of a strategy (at least one).
pub open spec fn bucket_count_spec(strategy: SectorPartitionStrategy) -> u16 {
    match strategy {
        SectorPartitionStrategy::StableHash { bucket_count } => if bucket_count == 0 { 1 } else { bucket_count },
    }
}

/// A path's text with every `\` turned into `/`.
pub open spec fn stable_key(path: Seq<char>) -> Seq<char> {
    path.map_values(|c: char| if c == '\\' { '/' } else { c })
}

/// A member's path relative to the corpus root: the file name when the root
/// is this very file, the part below the root when there is one, and the
/// path itself otherwise.
pub open spec fn relative_member_spec(root: Seq<char>, root_is_file: bool, path: Seq<char>) -> Seq<char> {
    if root_is_file && components(root) == components(path) {
        match file_name_spec(root) {
            Some(name) => name,
            None => path,
        }
    } else {
        match strip_prefix_spec(path, root) {
            Some(rel) => if rel.len() > 0 { rel } else { path },
            None => path,
        }
    }
}

/// The proof of a member under `root`.
pub open spec fn proof_of(root: Seq<char>, root_is_file: bool, m: MemberModel) -> ProofModel {
    let rel = relative_member_spec(root, root_is_file, m.path);
    ProofModel { member_key: stable_key(rel), relative_path: rel, kind: m.kind, blob: m.blob }
}

/// The text hashed to place a member in a bucket.
pub open spec fn bucket_material(corpus_key: Seq<char>, member_key: Seq<char>) -> Seq<char> {
    "sector-bucket-v"@ + decimal(SECTOR_SCHEMA_VERSION as nat) + "\n"@ + corpus_key + "\n"@ + member_key
}

/// The bucket of a member: the first eight digest bytes of its bucket
/// material, read little-endian, modulo the bucket count.
pub open spec fn bucket_of(corpus_key: Seq<char>, member_key: Seq<char>, count: u16) -> int {
    (le_value(blake3_digest(encode_utf8(bucket_material(corpus_key, member_key))).take(8)) % (count as nat)) as int
}

/// The text hashed to name the sector of a bucket.
pub open spec fn sector_id_material(corpus_key: Seq<char>, count: u16, ordinal: u16) -> Seq<char> {
    "sector-id-v"@ + decimal(SECTOR_SCHEMA_VERSION as nat) + "\n"@ + corpus_key + "\n"@ + decimal(
        count as nat,
    ) + "\n"@ + decimal(ordinal as nat)
}

/// The bytes a list of proofs contributes to its fingerprint.
pub open spec fn fingerprint_bytes(proofs: Seq<ProofModel>) -> Seq<u8>
    decreases proofs.len(),
{
    if proofs.len() == 0 {
        Seq::empty()
    } else {
        let p = proofs.last();
        fingerprint_bytes(proofs.drop_last()) + encode_utf8(p.member_key) + encode_utf8(
            stable_key(p.relative_path),
        ) + seq![kind_code(p.kind)] + encode_utf8(p.blob)
    }
}

/// The fingerprint of a list of proofs.
pub open spec fn fingerprint_of(proofs: Seq<ProofModel>) -> Seq<char> {
    hex_lower(blake3_digest(fingerprint_bytes(proofs)))
}

impl SectorPartitionStrategy {
    /// The stable-hash strategy over `bucket_count` buckets.
    pub fn stable_hash(bucket_count: u16) -> (r: Self)
        ensures
            r == (SectorPartitionStrategy::StableHash { bucket_count }),
    {
        SectorPartitionStrategy::StableHash { bucket_count }
    }

    /// The number of buckets, at least one.
    pub fn bucket_count(self) -> (r: u16)
        ensures
            r == bucket_count_spec(self),
    {
        match self {
            SectorPartitionStrategy::StableHash { bucket_count } => if bucket_count == 0 { 1 } else { bucket_count },
        }
    }

    /// The bucket of a member.
    fn bucket_for_member(self, corpus_key: &str, member_key: &str) -> (r: u16)
        ensures
            r as int == bucket_of(corpus_key@, member_key@, bucket_count_spec(self)),
    {
        let mut material: Vec<char> = Vec::new();
        extend_str(&mut material, "sector-bucket-v");
        push_decimal(&mut material, SECTOR_SCHEMA_VERSION as u64);
        extend_str(&mut material, "\n");
        extend_str(&mut material, corpus_key);
        extend_str(&mut material, "\n");
        extend_str(&mut material, member_key);
        let text = string_of(material.as_slice());
        let digest = digest_bytes(text.as_str().as_bytes());
        let value = le_u64_prefix(digest.as_slice());
        let count = self.bucket_count();
        proof {
            assert(material@ == bucket_material(corpus_key@, member_key@));
        }
        (value % (count as u64)) as u16
    }
}

impl SectorMemberInput {
    /// A member that is a file of the corpus.
    pub fn filesystem(path: &str, artifact_blob_key: &str) -> (r: Self)
        ensures
            r.path@ == path@,
            r.proof_kind == SectorProofKind::FileSystem,
            r.artifact_blob_key@ == artifact_blob_key@,
    {
        SectorMemberInput {
            path: path.to_owned(),
            proof_kind: SectorProofKind::FileSystem,
            artifact_blob_key: artifact_blob_key.to_owned(),
        }
    }

    /// A member that is a synthetic entry.
    pub fn synthetic(path: &str, artifact_blob_key: &str) -> (r: Self)
        ensures
            r.path@ == path@,
            r.proof_kind == SectorProofKind::Synthetic,
            r.artifact_blob_key@ == artifact_blob_key@,
    {
        SectorMemberInput {
            path: path.to_owned(),
            proof_kind: SectorProofKind::Synthetic,
            artifact_blob_key: artifact_blob_key.to_owned(),
        }
    }

    /// The proof of this member under `root`.
    fn to_proof(&self, root: &str, root_is_file: bool) -> (r: SectorProofMaterial)
        ensures
            r@ == proof_of(root@, root_is_file, self@),
    {
        let relative_path = relative_member_path(root, root_is_file, self.path.as_str());
        let member_key = stable_path_key(relative_path.as_str());
        SectorProofMaterial {
            member_key,
            relative_path,
            proof_kind: self.proof_kind,
            artifact_blob_key: self.artifact_blob_key.clone(),
        }
    }
}

/// A path's text with every `\` turned into `/`.
pub fn stable_path_key(path: &str) -> (r: String)
    ensures
        r@ == stable_key(path@),
{
    let cs = chars_of(path);
    let mut out: Vec<char> = Vec::new();
    let mut i: usize = 0;
    while i < cs.len()
        invariant
            i <= cs.len(),
            out@ == stable_key(cs@.take(i as int)),
        decreases cs.len() - i,
    {
        let c = cs[i];
        out.push(if c == '\\' { '/' } else { c });
        i += 1;
        assert(out@ =~= stable_key(cs@.take(i as int)));
    }
    assert(cs@.take(cs@.len() as int) =~= cs@);
    string_of(out.as_slice())
}

/// A member's path relative to the corpus root.
pub fn relative_member_path(root: &str, root_is_file: bool, path: &str) -> (r: String)
    ensures
        r@ == relative_member_spec(root@, root_is_file, path@),
{
    let rc = chars_of(root);
    let pc = chars_of(path);
    if root_is_file {
        let a = components_of(rc.as_slice());
        let b = components_of(pc.as_slice());
        if same_component_lists(a.as_slice(), b.as_slice()) {
            return match file_name_chars(rc.as_slice()) {
                Some(name) => string_of(name.as_slice()),
                None => path.to_owned(),
            };
        }
    }
    match strip_prefix_chars(pc.as_slice(), rc.as_slice()) {
        Some(rel) => if rel.len() > 0 { string_of(rel.as_slice()) } else { path.to_owned() },
        None => path.to_owned(),
    }
}

/// Whether two component lists are equal.
fn same_component_lists(a: &[Vec<char>], b: &[Vec<char>]) -> (r: bool)
    ensures
        r == (views(a@) == views(b@)),
{
    let c = compare_lists(a, b);
    proof {
        crate::order::lemma_list_order_basics(char_views(a@), char_views(b@));
        assert(char_views(a@) == views(a@));
        assert(char_views(b@) == views(b@));
    }
    c == 0
}


/// The comparison that orders a sector's members: by member key, then by
/// relative path (component by component), then by content key.
pub open spec fn proof_order(p: ProofModel, q: ProofModel) -> int {
    if text_order(p.member_key, q.member_key) != 0 {
        text_order(p.member_key, q.member_key)
    } else if list_order(components(p.relative_path), components(q.relative_path)) != 0 {
        list_order(components(p.relative_path), components(q.relative_path))
    } else {
        text_order(p.blob, q.blob)
    }
}

/// `x` placed into `s` after every element that does not order above it.
pub open spec fn insert_sorted(s: Seq<ProofModel>, x: ProofModel) -> Seq<ProofModel>
    decreases s.len(),
{
    if s.len() == 0 {
        seq![x]
    } else if proof_order(s.last(), x) > 0 {
        insert_sorted(s.drop_last(), x).push(s.last())
    } else {
        s.push(x)
    }
}

/// `s` sorted stably by `proof_order` (insertion in input order).
pub open spec fn sort_proofs(s: Seq<ProofModel>) -> Seq<ProofModel>
    decreases s.len(),
{
    if s.len() == 0 {
        s
    } else {
        insert_sorted(sort_proofs(s.drop_last()), s.last())
    }
}

/// The proofs of `s` whose member falls in bucket `b`, in order.
pub open spec fn in_bucket(corpus_key: Seq<char>, s: Seq<ProofModel>, count: u16, b: int) -> Seq<ProofModel>
    decreases s.len(),
{
    if s.len() == 0 {
        s
    } else {
        let rest = in_bucket(corpus_key, s.drop_last(), count, b);
        if bucket_of(corpus_key, s.last().member_key, count) == b {
            rest.push(s.last())
        } else {
            rest
        }
    }
}

/// The abstract membership summary.
pub struct SummaryModel {
    pub member_count: nat,
    pub first_member_key: Option<Seq<char>>,
    pub last_member_key: Option<Seq<char>>,
    pub proof_fingerprint: Seq<char>,
}

/// The abstract sector.
pub struct RecordModel {
    pub sector_id: Seq<char>,
    pub bucket_ordinal: u16,
    pub membership: SummaryModel,
    pub proofs: Seq<ProofModel>,
    pub bm25_shard: Option<Seq<char>>,
}

/// The abstract sector map.
pub struct MapModel {
    pub schema_version: u32,
    pub corpus_key: Seq<char>,
    pub strategy: SectorPartitionStrategy,
    pub member_count: nat,
    pub sectors: Seq<RecordModel>,
}

/// The summary of a list of proofs.
pub open spec fn summary_of(proofs: Seq<ProofModel>) -> SummaryModel {
    SummaryModel {
        member_count: proofs.len(),
        first_member_key: if proofs.len() > 0 { Some(proofs[0].member_key) } else { None },
        last_member_key: if proofs.len() > 0 { Some(proofs.last().member_key) } else { None },
        proof_fingerprint: fingerprint_of(proofs),
    }
}

/// The sector of bucket `b` holding the (sorted) `proofs`.
pub open spec fn record_of(corpus_key: Seq<char>, count: u16, b: u16, proofs: Seq<ProofModel>) -> RecordModel {
    RecordModel {
        sector_id: blake3_hex(sector_id_material(corpus_key, count, b)),
        bucket_ordinal: b,
        membership: summary_of(proofs),
        proofs,
        bm25_shard: None,
    }
}

/// The sectors of the buckets below `b` that hold members, in bucket order.
pub open spec fn sectors_below(corpus_key: Seq<char>, proofs: Seq<ProofModel>, count: u16, b: nat) -> Seq<RecordModel>
    decreases b,
{
    if b == 0 {
        Seq::empty()
    } else {
        let prev = sectors_below(corpus_key, proofs, count, (b - 1) as nat);
        let group = in_bucket(corpus_key, proofs, count, b - 1);
        if group.len() > 0 {
            prev.push(record_of(corpus_key, count, (b - 1) as u16, sort_proofs(group)))
        } else {
            prev
        }
    }
}

/// The sector map of `members` under `root` with `strategy`.
pub open spec fn sector_map_spec(
    root: Seq<char>,
    root_is_file: bool,
    members: Seq<MemberModel>,
    strategy: SectorPartitionStrategy,
) -> MapModel {
    let key = corpus_key(root);
    let proofs = members.map_values(|m: MemberModel| proof_of(root, root_is_file, m));
    let count = bucket_count_spec(strategy);
    MapModel {
        schema_version: SECTOR_SCHEMA_VERSION,
        corpus_key: key,
        strategy,
        member_count: members.len(),
        sectors: sectors_below(key, proofs, count, count as nat),
    }
}

/// The abstract view of an optional string.
pub open spec fn opt_text(o: Option<String>) -> Option<Seq<char>> {
    match o {
        Some(s) => Some(s@),
        None => None,
    }
}

impl View for SectorMembershipSummary {
    type V = SummaryModel;

    open spec fn view(&self) -> SummaryModel {
        SummaryModel {
            member_count: self.member_count as nat,
            first_member_key: opt_text(self.first_member_key),
            last_member_key: opt_text(self.last_member_key),
            proof_fingerprint: self.proof_fingerprint@,
        }
    }
}

impl View for SectorRecord {
    type V = RecordModel;

    open spec fn view(&self) -> RecordModel {
        RecordModel {
            sector_id: self.sector_id@,
            bucket_ordinal: self.bucket_ordinal,
            membership: self.membership@,
            proofs: proof_views(self.proofs@),
            bm25_shard: match self.shards.bm25 {
                Some(r) => Some(r.key@),
                None => None,
            },
        }
    }
}

/// The abstract views of a list of sectors.
pub open spec fn record_views(s: Seq<SectorRecord>) -> Seq<RecordModel> {
    s.map_values(|r: SectorRecord| r@)
}

impl View for SectorMap {
    type V = MapModel;

    open spec fn view(&self) -> MapModel {
        MapModel {
            schema_version: self.schema_version,
            corpus_key: self.corpus_key@,
            strategy: self.partition.strategy,
            member_count: self.partition.member_count as nat,
            sectors: record_views(self.sectors@),
        }
    }
}

/// Appends the UTF-8 bytes of `s` to `v`.
fn extend_bytes(v: &mut Vec<u8>, s: &str)
    ensures
        final(v)@ == old(v)@ + encode_utf8(s@),
{
    let b = s.as_bytes();
    let ghost start = v@;
    let mut i: usize = 0;
    while i < b.len()
        invariant
            i <= b.len(),
            b@ == encode_utf8(s@),
            v@ == start + b@.take(i as int),
        decreases b.len() - i,
    {
        v.push(b[i]);
        i += 1;
        assert(v@ =~= start + b@.take(i as int));
    }
    assert(b@.take(b@.len() as int) =~= b@);
}

/// The fingerprint byte of a proof kind.
fn kind_byte(kind: SectorProofKind) -> (r: u8)
    ensures
        r == kind_code(kind),
{
    match kind {
        SectorProofKind::FileSystem => 1,
        SectorProofKind::Synthetic => 2,
    }
}

impl SectorMembershipSummary {
    /// The summary of `proofs`: their number, first and last member keys, and
    /// the fingerprint of their keys, paths, kinds and content keys.
    pub fn from_proofs(proofs: &[SectorProofMaterial]) -> (r: Self)
        ensures
            r@ == summary_of(proof_views(proofs@)),
    {
        let mut bytes: Vec<u8> = Vec::new();
        let mut i: usize = 0;
        while i < proofs.len()
            invariant
                i <= proofs.len(),
                bytes@ == fingerprint_bytes(proof_views(proofs@).take(i as int)),
            decreases proofs.len() - i,
        {
            let p = &proofs[i];
            extend_bytes(&mut bytes, p.member_key.as_str());
            let key = stable_path_key(p.relative_path.as_str());
            extend_bytes(&mut bytes, key.as_str());
            bytes.push(kind_byte(p.proof_kind));
            extend_bytes(&mut bytes, p.artifact_blob_key.as_str());
            proof {
                let t = proof_views(proofs@).take(i + 1);
                assert(t.drop_last() =~= proof_views(proofs@).take(i as int));
                assert(t.last() == proofs@[i as int]@);
            }
            i += 1;
        }
        assert(proof_views(proofs@).take(proofs@.len() as int) =~= proof_views(proofs@));
        let digest = digest_bytes(bytes.as_slice());
        let hex = to_hex_lower(digest.as_slice());
        let n = proofs.len();
        let first = if n > 0 { Some(proofs[0].member_key.clone()) } else { None };
        let last = if n > 0 { Some(proofs[n - 1].member_key.clone()) } else { None };
        SectorMembershipSummary {
            member_count: n,
            first_member_key: first,
            last_member_key: last,
            proof_fingerprint: string_of(hex.as_slice()),
        }
    }
}

/// The id of the sector of bucket `bucket_ordinal`.
fn sector_id_for_bucket(corpus_key: &str, strategy: SectorPartitionStrategy, bucket_ordinal: u16) -> (r: String)
    ensures
        r@ == blake3_hex(sector_id_material(corpus_key@, bucket_count_spec(strategy), bucket_ordinal)),
{
    let mut material: Vec<char> = Vec::new();
    extend_str(&mut material, "sector-id-v");
    push_decimal(&mut material, SECTOR_SCHEMA_VERSION as u64);
    extend_str(&mut material, "\n");
    extend_str(&mut material, corpus_key);
    extend_str(&mut material, "\n");
    push_decimal(&mut material, strategy.bucket_count() as u64);
    extend_str(&mut material, "\n");
    push_decimal(&mut material, bucket_ordinal as u64);
    let text = string_of(material.as_slice());
    hash_text_hex(text.as_str())
}


/// A copy of a proof.
fn copy_proof(p: &SectorProofMaterial) -> (r: SectorProofMaterial)
    ensures
        r@ == p@,
{
    SectorProofMaterial {
        member_key: p.member_key.clone(),
        relative_path: p.relative_path.clone(),
        proof_kind: p.proof_kind,
        artifact_blob_key: p.artifact_blob_key.clone(),
    }
}

/// Compares two proofs by `proof_order`.
fn compare_proofs(p: &SectorProofMaterial, q: &SectorProofMaterial) -> (r: i8)
    ensures
        r as int == proof_order(p@, q@),
{
    let pk = chars_of(p.member_key.as_str());
    let qk = chars_of(q.member_key.as_str());
    let c = compare_chars(pk.as_slice(), qk.as_slice());
    if c != 0 {
        return c;
    }
    let pr = chars_of(p.relative_path.as_str());
    let qr = chars_of(q.relative_path.as_str());
    let pc = components_of(pr.as_slice());
    let qc = components_of(qr.as_slice());
    let d = compare_lists(pc.as_slice(), qc.as_slice());
    proof {
        assert(char_views(pc@) =~= views(pc@));
        assert(char_views(qc@) =~= views(qc@));
    }
    if d != 0 {
        return d;
    }
    let pb = chars_of(p.artifact_blob_key.as_str());
    let qb = chars_of(q.artifact_blob_key.as_str());
    compare_chars(pb.as_slice(), qb.as_slice())
}

/// Inserting after the last element that does not order above `x` is
/// `insert_sorted`.
proof fn lemma_insert_sorted_at(s: Seq<ProofModel>, x: ProofModel, j: int)
    requires
        0 <= j <= s.len(),
        forall|k: int| j <= k < s.len() ==> proof_order(#[trigger] s[k], x) > 0,
        j == 0 || proof_order(s[j - 1], x) <= 0,
    ensures
        insert_sorted(s, x) == s.insert(j, x),
    decreases s.len(),
{
    if s.len() == 0 {
        assert(s.insert(0, x) =~= seq![x]);
    } else if j == s.len() {
        assert(s.insert(j, x) =~= s.push(x));
    } else {
        assert(proof_order(s[s.len() - 1], x) > 0);
        lemma_insert_sorted_at(s.drop_last(), x, j);
        assert(s.insert(j, x) =~= s.drop_last().insert(j, x).push(s.last()));
    }
}

/// Inserts `x` into the sorted list `v`.
fn insert_proof(v: &mut Vec<SectorProofMaterial>, x: SectorProofMaterial)
    ensures
        proof_views(final(v)@) == insert_sorted(proof_views(old(v)@), x@),
{
    let mut j: usize = v.len();
    while j > 0
        invariant
            j <= v.len(),
            v@ == old(v)@,
            forall|k: int| j <= k < v@.len() ==> proof_order(#[trigger] proof_views(v@)[k], x@) > 0,
        ensures
            j == 0 || proof_order(proof_views(v@)[j - 1], x@) <= 0,
        decreases j,
    {
        let c = compare_proofs(&v[j - 1], &x);
        assert(proof_views(v@)[j - 1] == v@[j - 1]@);
        if c <= 0 {
            break;
        }
        j -= 1;
    }
    proof {
        if j > 0 {
            assert(proof_views(v@)[j - 1] == v@[j - 1]@);
        }
        lemma_insert_sorted_at(proof_views(v@), x@, j as int);
    }
    let ghost before = v@;
    v.insert(j, x);
    assert(proof_views(v@) =~= proof_views(before).insert(j as int, x@));
}

/// `items` sorted stably by `proof_order`.
fn sort_proof_list(items: &[SectorProofMaterial]) -> (r: Vec<SectorProofMaterial>)
    ensures
        proof_views(r@) == sort_proofs(proof_views(items@)),
{
    let mut out: Vec<SectorProofMaterial> = Vec::new();
    let mut i: usize = 0;
    assert(proof_views(items@).take(0) =~= Seq::<ProofModel>::empty());
    while i < items.len()
        invariant
            i <= items.len(),
            proof_views(out@) == sort_proofs(proof_views(items@).take(i as int)),
        decreases items.len() - i,
    {
        let x = copy_proof(&items[i]);
        insert_proof(&mut out, x);
        proof {
            let t = proof_views(items@).take(i + 1);
            assert(t.drop_last() =~= proof_views(items@).take(i as int));
            assert(t.last() == items@[i as int]@);
        }
        i += 1;
    }
    assert(proof_views(items@).take(items@.len() as int) =~= proof_views(items@));
    out
}


/// The proof views of members under `root`.
pub open spec fn member_proofs(root: Seq<char>, root_is_file: bool, members: Seq<MemberModel>) -> Seq<ProofModel> {
    members.map_values(|m: MemberModel| proof_of(root, root_is_file, m))
}

/// The proofs of `proofs` in bucket `b`, in order.
fn select_bucket(
    proofs: &[SectorProofMaterial],
    buckets: &[u16],
    b: u16,
    Ghost(key): Ghost<Seq<char>>,
    Ghost(count): Ghost<u16>,
) -> (r: Vec<SectorProofMaterial>)
    requires
        proofs@.len() == buckets@.len(),
        forall|k: int| 0 <= k < buckets@.len() ==> #[trigger] buckets@[k] as int == bucket_of(key, proofs@[k].member_key@, count),
    ensures
        proof_views(r@) == in_bucket(key, proof_views(proofs@), count, b as int),
{
    let mut out: Vec<SectorProofMaterial> = Vec::new();
    let mut i: usize = 0;
    assert(proof_views(proofs@).take(0) =~= Seq::<ProofModel>::empty());
    while i < proofs.len()
        invariant
            i <= proofs.len(),
            proofs@.len() == buckets@.len(),
            forall|k: int| 0 <= k < buckets@.len() ==> #[trigger] buckets@[k] as int == bucket_of(key, proofs@[k].member_key@, count),
            proof_views(out@) == in_bucket(key, proof_views(proofs@).take(i as int), count, b as int),
        decreases proofs.len() - i,
    {
        let ghost before = out@;
        proof {
            let t = proof_views(proofs@).take(i + 1);
            assert(t.drop_last() =~= proof_views(proofs@).take(i as int));
            assert(t.last() == proofs@[i as int]@);
            assert(buckets@[i as int] as int == bucket_of(key, proofs@[i as int].member_key@, count));
        }
        if buckets[i] == b {
            let x = copy_proof(&proofs[i]);
            out.push(x);
            assert(proof_views(out@) =~= proof_views(before).push(x@));
        }
        i += 1;
    }
    assert(proof_views(proofs@).take(proofs@.len() as int) =~= proof_views(proofs@));
    out
}

impl SectorMap {
    /// The sector map of `members` under `root`, given whether `root` is a
    /// file: members are spread over the strategy's buckets, every bucket
    /// that received members becomes a sector (in bucket order), and each
    /// sector lists its members sorted by key, path and content key, with
    /// ties kept in input order.
    pub fn build_for_root_with(
        root: &str,
        root_is_file: bool,
        members: &[SectorMemberInput],
        strategy: SectorPartitionStrategy,
    ) -> (r: SectorMap)
        ensures
            r@ == sector_map_spec(root@, root_is_file, member_views(members@), strategy),
    {
        let key = corpus_cache_key(root);
        let count = strategy.bucket_count();
        let ghost proofs_spec = member_proofs(root@, root_is_file, member_views(members@));
        let mut proofs: Vec<SectorProofMaterial> = Vec::new();
        let mut buckets: Vec<u16> = Vec::new();
        let mut i: usize = 0;
        while i < members.len()
            invariant
                i <= members.len(),
                key@ == corpus_key(root@),
                count == bucket_count_spec(strategy),
                proofs@.len() == i,
                buckets@.len() == i,
                proofs_spec == member_proofs(root@, root_is_file, member_views(members@)),
                forall|k: int| 0 <= k < i ==> #[trigger] proofs@[k]@ == proofs_spec[k],
                forall|k: int| 0 <= k < i ==> #[trigger] buckets@[k] as int == bucket_of(key@, proofs@[k].member_key@, count),
            decreases members.len() - i,
        {
            let p = members[i].to_proof(root, root_is_file);
            let b = strategy.bucket_for_member(key.as_str(), p.member_key.as_str());
            proofs.push(p);
            buckets.push(b);
            i += 1;
        }
        assert(proof_views(proofs@) =~= proofs_spec);
        let mut sectors: Vec<SectorRecord> = Vec::new();
        let mut b: u32 = 0;
        while b < count as u32
            invariant
                b <= count as u32,
                key@ == corpus_key(root@),
                count == bucket_count_spec(strategy),
                proof_views(proofs@) == proofs_spec,
                proofs@.len() == buckets@.len(),
                forall|k: int| 0 <= k < buckets@.len() ==> #[trigger] buckets@[k] as int == bucket_of(key@, proofs@[k].member_key@, count),
                record_views(sectors@) == sectors_below(key@, proofs_spec, count, b as nat),
            decreases count as u32 - b,
        {
            let ordinal: u16 = b as u16;
            let group = select_bucket(proofs.as_slice(), buckets.as_slice(), ordinal, Ghost(key@), Ghost(count));
            if group.len() > 0 {
                let sorted = sort_proof_list(group.as_slice());
                let membership = SectorMembershipSummary::from_proofs(sorted.as_slice());
                let record = SectorRecord {
                    sector_id: sector_id_for_bucket(key.as_str(), strategy, ordinal),
                    bucket_ordinal: ordinal,
                    membership,
                    proofs: sorted,
                    shards: SectorShardRefs { bm25: None },
                };
                let ghost before = sectors@;
                sectors.push(record);
                assert(record_views(sectors@) =~= record_views(before).push(record@));
            }
            b += 1;
        }
        SectorMap {
            schema_version: SECTOR_SCHEMA_VERSION,
            corpus_key: key,
            partition: SectorPartition { strategy, member_count: members.len() },
            sectors,
        }
    }

    /// The sector map of `members` under `root`. Whether `root` is a file is
    /// read from disk; whatever the answer, the map is the one that
    /// `build_for_root_with` gives for it.
    pub fn build_for_root(
        root: &str,
        members: Vec<SectorMemberInput>,
        strategy: SectorPartitionStrategy,
    ) -> (r: SectorMap)
        ensures
            r@ == sector_map_spec(root@, true, member_views(members@), strategy)
                || r@ == sector_map_spec(root@, false, member_views(members@), strategy),
    {
        let root_is_file = path_is_file(root);
        Self::build_for_root_with(root, root_is_file, members.as_slice(), strategy)
    }
}


impl Default for SectorPartitionStrategy {
    /// The stable-hash strategy over the default bucket count.
    fn default() -> (r: Self)
        ensures
            r == (SectorPartitionStrategy::StableHash { bucket_count: DEFAULT_SECTOR_BUCKETS }),
    {
        SectorPartitionStrategy::stable_hash(DEFAULT_SECTOR_BUCKETS)
    }
}

impl Default for SectorPartition {
    /// The default strategy, having spread no members.
    fn default() -> (r: Self)
        ensures
            r.strategy == (SectorPartitionStrategy::StableHash { bucket_count: DEFAULT_SECTOR_BUCKETS }),
            r.member_count == 0,
    {
        SectorPartition { strategy: SectorPartitionStrategy::stable_hash(DEFAULT_SECTOR_BUCKETS), member_count: 0 }
    }
}

impl Default for SectorShardRefs {
    /// No shards.
    fn default() -> (r: Self)
        ensures
            r.bm25 is None,
    {
        SectorShardRefs { bm25: None }
    }
}

impl Default for SectorMap {
    /// An empty map of the current schema with an empty corpus key.
    fn default() -> (r: Self)
        ensures
            r@.schema_version == SECTOR_SCHEMA_VERSION,
            r@.corpus_key == Seq::<char>::empty(),
            r@.strategy == (SectorPartitionStrategy::StableHash { bucket_count: DEFAULT_SECTOR_BUCKETS }),
            r@.member_count == 0,
            r@.sectors == Seq::<RecordModel>::empty(),
    {
        let r = SectorMap {
            schema_version: SECTOR_SCHEMA_VERSION,
            corpus_key: String::new(),
            partition: SectorPartition { strategy: SectorPartitionStrategy::stable_hash(DEFAULT_SECTOR_BUCKETS), member_count: 0 },
            sectors: Vec::new(),
        };
        assert(record_views(r.sectors@) =~= Seq::<RecordModel>::empty());
        r
    }
}

/// Where the sector map of the corpus at `root` is kept.
pub open spec fn sector_map_path_spec(cache_base: Seq<char>, root: Seq<char>) -> Seq<char> {
    path_join(path_join(path_join(cache_base, "artifacts"@), "sectors"@), corpus_key(root) + ".bin"@)
}

/// Where the sector map of the corpus at `root` is kept under `cache_base`:
/// `artifacts/sectors/<corpus key>.bin`.
pub fn sector_map_cache_path(cache_base: &str, root: &str) -> (r: String)
    ensures
        r@ == sector_map_path_spec(cache_base@, root@),
{
    let a = join(cache_base, "artifacts");
    let b = join(a.as_str(), "sectors");
    let mut name = corpus_cache_key(root);
    name.append(".bin");
    join(b.as_str(), name.as_str())
}

/// Where a sector's BM25 shard is kept under `cache_base`:
/// `artifacts/indexes/<corpus key>/sectors/<sector id>/<shard key>.bin`.
pub fn sector_bm25_shard_cache_path(cache_base: &str, root: &str, sector_id: &str, shard_key: &str) -> (r: String)
    ensures
        r@ == path_join(
            path_join(
                path_join(
                    path_join(path_join(path_join(cache_base@, "artifacts"@), "indexes"@), corpus_key(root@)),
                    "sectors"@,
                ),
                sector_id@,
            ),
            shard_key@ + ".bin"@,
        ),
{
    let a = join(cache_base, "artifacts");
    let b = join(a.as_str(), "indexes");
    let key = corpus_cache_key(root);
    let c = join(b.as_str(), key.as_str());
    let d = join(c.as_str(), "sectors");
    let e = join(d.as_str(), sector_id);
    let mut name = shard_key.to_owned();
    name.append(".bin");
    join(e.as_str(), name.as_str())
}

} // verus!
