//! The frontier ledger: how far a search has come in mounting the sectors of
//! a corpus, reusing clean ones and rebuilding dirty ones.
use vstd::prelude::*;
use crate::cache::breadcrumb::BreadcrumbJournal;

verus! {

/// The sector a rebuild is working on.
#[derive(Debug, Clone, PartialEq, Eq)]
pub struct FrontierActiveRebuild {
    pub sector_id: String,
    pub next_member_offset: usize,
    pub sector_member_count: usize,
    pub resumed: bool,
}

/// Counters of sector progress, with the sector ids behind the counters.
///
/// Each id list holds every id at most once (see `wf`); a counter grows by
/// one when its list gains an id. The lists are public so that contracts
/// can speak of them.
#[derive(Debug, Clone, PartialEq, Eq, Default)]
pub struct FrontierLedger {
    pub total_sector_count: usize,
    pub mounted_sector_count: usize,
    pub reused_sector_count: usize,
    pub dirty_sector_count: usize,
    pub completed_dirty_sector_count: usize,
    pub rebuilding_sector_count: usize,
    pub resumed_sector_count: usize,
    pub active_rebuild: Option<FrontierActiveRebuild>,
    pub mounted_sector_ids: Vec<String>,
    pub reused_sector_ids: Vec<String>,
    pub completed_dirty_sector_ids: Vec<String>,
    pub resumed_sector_ids: Vec<String>,
}

/// The abstract active rebuild.
#[verifier::ext_equal]
pub struct ActiveRebuildModel {
    pub sector_id: Seq<char>,
    pub next_member_offset: nat,
    pub sector_member_count: nat,
    pub resumed: bool,
}

/// The abstract ledger: counters and the sets of sector ids behind them.
#[verifier::ext_equal]
pub struct LedgerModel {
    pub total: nat,
    pub mounted: nat,
    pub reused: nat,
    pub dirty: nat,
    pub completed: nat,
    pub rebuilding: nat,
    pub resumed: nat,
    pub active: Option<ActiveRebuildModel>,
    pub mounted_ids: Set<Seq<char>>,
    pub reused_ids: Set<Seq<char>>,
    pub completed_ids: Set<Seq<char>>,
    pub resumed_ids: Set<Seq<char>>,
}

/// One operation on a ledger, with its arguments.
pub enum LedgerOp {
    CleanMount(Seq<char>),
    StartRebuild(Seq<char>, nat, bool, nat),
    AdvanceRebuild(Seq<char>, nat),
    CompleteRebuild(Seq<char>, bool),
    Resume(Seq<Seq<char>>, Option<(Seq<char>, nat, nat)>),
}

/// The texts of a list of strings.
pub open spec fn texts(v: Seq<String>) -> Seq<Seq<char>> {
    v.map_values(|s: String| s@)
}

/// `n` lowered by one, but not below zero.
pub open spec fn dec(n: nat) -> nat {
    if n > 0 { (n - 1) as nat } else { 0 }
}

/// `n` plus one when `b` holds.
pub open spec fn inc_if(n: nat, b: bool) -> nat {
    if b { n + 1 } else { n }
}

/// The abstract active rebuild of an exec one.
pub open spec fn active_model(a: Option<FrontierActiveRebuild>) -> Option<ActiveRebuildModel> {
    match a {
        Some(a) => Some(ActiveRebuildModel {
            sector_id: a.sector_id@,
            next_member_offset: a.next_member_offset as nat,
            sector_member_count: a.sector_member_count as nat,
            resumed: a.resumed,
        }),
        None => None,
    }
}

impl LedgerModel {
    /// A fresh ledger.
    pub open spec fn fresh(total: nat, dirty: nat) -> LedgerModel {
        LedgerModel {
            total,
            mounted: 0,
            reused: 0,
            dirty,
            completed: 0,
            rebuilding: 0,
            resumed: 0,
            active: None,
            mounted_ids: Set::empty(),
            reused_ids: Set::empty(),
            completed_ids: Set::empty(),
            resumed_ids: Set::empty(),
        }
    }

    /// A clean sector was mounted from cache: it counts as mounted (and one
    /// fewer sector is dirty) the first time, and as reused the first time.
    pub open spec fn record_clean_mount(self, id: Seq<char>) -> LedgerModel {
        let new_mount = !self.mounted_ids.contains(id);
        let new_reuse = !self.reused_ids.contains(id);
        LedgerModel {
            mounted: inc_if(self.mounted, new_mount),
            dirty: if new_mount { dec(self.dirty) } else { self.dirty },
            mounted_ids: self.mounted_ids.insert(id),
            reused: inc_if(self.reused, new_reuse),
            reused_ids: self.reused_ids.insert(id),
            ..self
        }
    }

    /// A dirty sector's rebuild starts (or resumes) at `offset` of `count`
    /// members: it becomes the one active rebuild, and a resumed sector
    /// counts as resumed the first time.
    pub open spec fn start_dirty_rebuild(self, id: Seq<char>, count: nat, resumed: bool, offset: nat) -> LedgerModel {
        let new_resume = resumed && !self.resumed_ids.contains(id);
        LedgerModel {
            resumed: inc_if(self.resumed, new_resume),
            resumed_ids: if resumed { self.resumed_ids.insert(id) } else { self.resumed_ids },
            rebuilding: 1,
            active: Some(ActiveRebuildModel {
                sector_id: id,
                next_member_offset: offset,
                sector_member_count: count,
                resumed,
            }),
            ..self
        }
    }

    /// The active rebuild of sector `id` moves to `offset`; nothing changes
    /// when another sector (or none) is active.
    pub open spec fn advance_dirty_rebuild(self, id: Seq<char>, offset: nat) -> LedgerModel {
        match self.active {
            Some(a) => if a.sector_id == id {
                LedgerModel {
                    active: Some(ActiveRebuildModel { next_member_offset: offset, ..a }),
                    ..self
                }
            } else {
                self
            },
            None => self,
        }
    }

    /// A dirty sector's rebuild completed: it counts as completed (and one
    /// fewer sector is dirty), as mounted, and when `reused` as reused, each
    /// the first time; if it was the active rebuild, none is active any more.
    pub open spec fn complete_dirty_rebuild(self, id: Seq<char>, reused: bool) -> LedgerModel {
        let new_complete = !self.completed_ids.contains(id);
        let new_mount = !self.mounted_ids.contains(id);
        let new_reuse = reused && !self.reused_ids.contains(id);
        let ends_active = match self.active {
            Some(a) => a.sector_id == id,
            None => false,
        };
        LedgerModel {
            completed: inc_if(self.completed, new_complete),
            dirty: if new_complete { dec(self.dirty) } else { self.dirty },
            completed_ids: self.completed_ids.insert(id),
            mounted: inc_if(self.mounted, new_mount),
            mounted_ids: self.mounted_ids.insert(id),
            reused: inc_if(self.reused, new_reuse),
            reused_ids: if reused { self.reused_ids.insert(id) } else { self.reused_ids },
            active: if ends_active { None } else { self.active },
            rebuilding: if ends_active { 0 } else { self.rebuilding },
            ..self
        }
    }

    /// Every sector of `ids` completed in turn, as reused.
    pub open spec fn complete_all(self, ids: Seq<Seq<char>>) -> LedgerModel
        decreases ids.len(),
    {
        if ids.len() == 0 {
            self
        } else {
            self.complete_all(ids.drop_last()).complete_dirty_rebuild(ids.last(), true)
        }
    }

    /// The ledger after resuming from a journal: every completed sector of
    /// the journal completed (as reused), then its active sector started, as
    /// resumed when its next member is past the first.
    pub open spec fn apply_breadcrumb_resume(
        self,
        completed: Seq<Seq<char>>,
        active: Option<(Seq<char>, nat, nat)>,
    ) -> LedgerModel {
        let done = self.complete_all(completed);
        match active {
            Some((id, offset, count)) => done.start_dirty_rebuild(id, count, offset > 0, offset),
            None => done,
        }
    }

    /// The rebuilding count is one exactly while a rebuild is active.
    pub open spec fn rebuild_flag_matches(self) -> bool {
        self.rebuilding == if self.active is Some { 1nat } else { 0nat }
    }

    /// The ledger after one operation.
    pub open spec fn apply(self, op: LedgerOp) -> LedgerModel {
        match op {
            LedgerOp::CleanMount(id) => self.record_clean_mount(id),
            LedgerOp::StartRebuild(id, count, resumed, offset) => self.start_dirty_rebuild(id, count, resumed, offset),
            LedgerOp::AdvanceRebuild(id, offset) => self.advance_dirty_rebuild(id, offset),
            LedgerOp::CompleteRebuild(id, reused) => self.complete_dirty_rebuild(id, reused),
            LedgerOp::Resume(completed, active) => self.apply_breadcrumb_resume(completed, active),
        }
    }

    /// The ledger after the operations of `ops`, in order.
    pub open spec fn apply_all(self, ops: Seq<LedgerOp>) -> LedgerModel
        decreases ops.len(),
    {
        if ops.len() == 0 {
            self
        } else {
            self.apply_all(ops.drop_last()).apply(ops.last())
        }
    }

    /// Every counter equals the number of sector ids behind it.
    pub open spec fn counts_match(self) -> bool {
        &&& self.mounted_ids.finite() && self.mounted == self.mounted_ids.len()
        &&& self.reused_ids.finite() && self.reused == self.reused_ids.len()
        &&& self.completed_ids.finite() && self.completed == self.completed_ids.len()
        &&& self.resumed_ids.finite() && self.resumed == self.resumed_ids.len()
    }
}

/// The journal's active sector as (id, next offset, member count).
pub open spec fn journal_active(j: BreadcrumbJournal) -> Option<(Seq<char>, nat, nat)> {
    match j.active_sector {
        Some(a) => Some((a.sector_id@, a.next_member_offset as nat, a.sector_member_count as nat)),
        None => None,
    }
}

impl View for FrontierLedger {
    type V = LedgerModel;

    open spec fn view(&self) -> LedgerModel {
        LedgerModel {
            total: self.total_sector_count as nat,
            mounted: self.mounted_sector_count as nat,
            reused: self.reused_sector_count as nat,
            dirty: self.dirty_sector_count as nat,
            completed: self.completed_dirty_sector_count as nat,
            rebuilding: self.rebuilding_sector_count as nat,
            resumed: self.resumed_sector_count as nat,
            active: active_model(self.active_rebuild),
            mounted_ids: texts(self.mounted_sector_ids@).to_set(),
            reused_ids: texts(self.reused_sector_ids@).to_set(),
            completed_ids: texts(self.completed_dirty_sector_ids@).to_set(),
            resumed_ids: texts(self.resumed_sector_ids@).to_set(),
        }
    }
}

/// Adds `id` to `ids` unless it is there already.
fn insert_id(ids: &mut Vec<String>, id: &str) -> (inserted: bool)
    requires
        texts(old(ids)@).no_duplicates(),
    ensures
        inserted == !texts(old(ids)@).contains(id@),
        texts(final(ids)@) == if inserted { texts(old(ids)@).push(id@) } else { texts(old(ids)@) },
        texts(final(ids)@).no_duplicates(),
        final(ids)@.len() == old(ids)@.len() + if inserted { 1int } else { 0int },
{
    let owned = id.to_owned();
    let mut k: usize = 0;
    while k < ids.len()
        invariant
            k <= ids.len(),
            ids@ == old(ids)@,
            texts(ids@).no_duplicates(),
            owned@ == id@,
            forall|j: int| 0 <= j < k ==> texts(ids@)[j] != id@,
        decreases ids.len() - k,
    {
        if ids[k] == owned {
            assert(texts(ids@)[k as int] == id@);
            return false;
        }
        k += 1;
    }
    let ghost before = ids@;
    ids.push(owned);
    proof {
        assert(texts(ids@) =~= texts(before).push(id@));
        assert(!texts(before).contains(id@));
    }
    true
}

impl FrontierLedger {
    /// Ids are unique in each list.
    pub open spec fn wf(&self) -> bool {
        &&& texts(self.mounted_sector_ids@).no_duplicates()
        &&& texts(self.reused_sector_ids@).no_duplicates()
        &&& texts(self.completed_dirty_sector_ids@).no_duplicates()
        &&& texts(self.resumed_sector_ids@).no_duplicates()
    }

    /// Each counter is its list's length, as in a ledger built by the
    /// operations from `new`.
    pub open spec fn counters_track_ids(&self) -> bool {
        &&& self.mounted_sector_count == self.mounted_sector_ids@.len()
        &&& self.reused_sector_count == self.reused_sector_ids@.len()
        &&& self.completed_dirty_sector_count == self.completed_dirty_sector_ids@.len()
        &&& self.resumed_sector_count == self.resumed_sector_ids@.len()
    }

    /// A ledger over `total_sector_count` sectors of which
    /// `dirty_sector_count` are dirty, with nothing mounted yet.
    pub fn new(total_sector_count: usize, dirty_sector_count: usize) -> (r: Self)
        ensures
            r.wf(),
            r.counters_track_ids(),
            r@ == LedgerModel::fresh(total_sector_count as nat, dirty_sector_count as nat),
    {
        let r = FrontierLedger {
            total_sector_count,
            mounted_sector_count: 0,
            reused_sector_count: 0,
            dirty_sector_count,
            completed_dirty_sector_count: 0,
            rebuilding_sector_count: 0,
            resumed_sector_count: 0,
            active_rebuild: None,
            mounted_sector_ids: Vec::new(),
            reused_sector_ids: Vec::new(),
            completed_dirty_sector_ids: Vec::new(),
            resumed_sector_ids: Vec::new(),
        };
        proof {
            assert(texts(r.mounted_sector_ids@).to_set() =~= Set::empty());
            assert(texts(r.reused_sector_ids@).to_set() =~= Set::empty());
            assert(texts(r.completed_dirty_sector_ids@).to_set() =~= Set::empty());
            assert(texts(r.resumed_sector_ids@).to_set() =~= Set::empty());
        }
        r
    }

    /// Records that the clean sector `sector_id` was mounted from cache.
    pub fn record_clean_mount(&mut self, sector_id: &str)
        requires
            old(self).wf(),
            !old(self)@.mounted_ids.contains(sector_id@) ==> old(self).mounted_sector_count < usize::MAX,
            !old(self)@.reused_ids.contains(sector_id@) ==> old(self).reused_sector_count < usize::MAX,
        ensures
            final(self).wf(),
            old(self).counters_track_ids() ==> final(self).counters_track_ids(),
            final(self)@ == old(self)@.record_clean_mount(sector_id@),
    {
        let ghost before = self@;
        let ghost old_mounted = texts(self.mounted_sector_ids@);
        let ghost old_reused = texts(self.reused_sector_ids@);
        proof {
            lemma_contains_set(old_mounted, sector_id@);
            lemma_contains_set(old_reused, sector_id@);
        }
        let mount = insert_id(&mut self.mounted_sector_ids, sector_id);
        if mount {
            self.mounted_sector_count = self.mounted_sector_count + 1;
            self.dirty_sector_count = if self.dirty_sector_count > 0 {
                self.dirty_sector_count - 1
            } else {
                0
            };
        }
        let reuse = insert_id(&mut self.reused_sector_ids, sector_id);
        if reuse {
            self.reused_sector_count = self.reused_sector_count + 1;
        }
        proof {
            old_mounted.lemma_push_to_set_commute(sector_id@);
            old_reused.lemma_push_to_set_commute(sector_id@);
            lemma_contains_set(old_mounted, sector_id@);
            lemma_contains_set(old_reused, sector_id@);
            assert(self@.mounted_ids =~= before.mounted_ids.insert(sector_id@));
            assert(self@.reused_ids =~= before.reused_ids.insert(sector_id@));
        }
    }

    /// Records that the rebuild of dirty sector `sector_id` starts at
    /// `next_member_offset` of `sector_member_count` members.
    pub fn start_dirty_rebuild(
        &mut self,
        sector_id: &str,
        sector_member_count: usize,
        resumed: bool,
        next_member_offset: usize,
    )
        requires
            old(self).wf(),
            resumed && !old(self)@.resumed_ids.contains(sector_id@) ==> old(self).resumed_sector_count < usize::MAX,
        ensures
            final(self).wf(),
            old(self).counters_track_ids() ==> final(self).counters_track_ids(),
            final(self)@ == old(self)@.start_dirty_rebuild(
                sector_id@,
                sector_member_count as nat,
                resumed,
                next_member_offset as nat,
            ),
    {
        let ghost before = self@;
        let ghost old_resumed = texts(self.resumed_sector_ids@);
        proof {
            lemma_contains_set(old_resumed, sector_id@);
        }
        if resumed {
            let fresh = insert_id(&mut self.resumed_sector_ids, sector_id);
            if fresh {
                self.resumed_sector_count = self.resumed_sector_count + 1;
            }
        }
        self.rebuilding_sector_count = 1;
        self.active_rebuild = Some(FrontierActiveRebuild {
            sector_id: sector_id.to_owned(),
            next_member_offset,
            sector_member_count,
            resumed,
        });
        proof {
            old_resumed.lemma_push_to_set_commute(sector_id@);
            lemma_contains_set(old_resumed, sector_id@);
            if resumed {
                assert(self@.resumed_ids =~= before.resumed_ids.insert(sector_id@));
            }
        }
    }

    /// Moves the active rebuild of `sector_id` to `next_member_offset`.
    pub fn advance_dirty_rebuild(&mut self, sector_id: &str, next_member_offset: usize)
        requires
            old(self).wf(),
        ensures
            final(self).wf(),
            old(self).counters_track_ids() ==> final(self).counters_track_ids(),
            final(self)@ == old(self)@.advance_dirty_rebuild(sector_id@, next_member_offset as nat),
    {
        let ghost before = self@;
        let owned = sector_id.to_owned();
        let matches = match &self.active_rebuild {
            Some(active) => active.sector_id == owned,
            None => false,
        };
        if matches {
            let mut active = self.active_rebuild.take().unwrap();
            active.next_member_offset = next_member_offset;
            self.active_rebuild = Some(active);
        }
        proof {
            if matches {
                assert(self@ == before.advance_dirty_rebuild(sector_id@, next_member_offset as nat));
            }
        }
    }

    /// Records that the rebuild of dirty sector `sector_id` completed;
    /// `reused` when its members came from cache.
    pub fn complete_dirty_rebuild(&mut self, sector_id: &str, reused: bool)
        requires
            old(self).wf(),
            !old(self)@.completed_ids.contains(sector_id@) ==> old(self).completed_dirty_sector_count < usize::MAX,
            !old(self)@.mounted_ids.contains(sector_id@) ==> old(self).mounted_sector_count < usize::MAX,
            reused && !old(self)@.reused_ids.contains(sector_id@) ==> old(self).reused_sector_count < usize::MAX,
        ensures
            final(self).wf(),
            old(self).counters_track_ids() ==> final(self).counters_track_ids(),
            final(self)@ == old(self)@.complete_dirty_rebuild(sector_id@, reused),
    {
        let ghost before = self@;
        let ghost old_completed = texts(self.completed_dirty_sector_ids@);
        let ghost old_mounted = texts(self.mounted_sector_ids@);
        let ghost old_reused = texts(self.reused_sector_ids@);
        proof {
            lemma_contains_set(old_completed, sector_id@);
            lemma_contains_set(old_mounted, sector_id@);
            lemma_contains_set(old_reused, sector_id@);
        }
        let complete = insert_id(&mut self.completed_dirty_sector_ids, sector_id);
        if complete {
            self.completed_dirty_sector_count = self.completed_dirty_sector_count + 1;
            self.dirty_sector_count = if self.dirty_sector_count > 0 {
                self.dirty_sector_count - 1
            } else {
                0
            };
        }
        let mount = insert_id(&mut self.mounted_sector_ids, sector_id);
        if mount {
            self.mounted_sector_count = self.mounted_sector_count + 1;
        }
        if reused {
            let reuse = insert_id(&mut self.reused_sector_ids, sector_id);
            if reuse {
                self.reused_sector_count = self.reused_sector_count + 1;
            }
        }
        let owned = sector_id.to_owned();
        let ends_active = match &self.active_rebuild {
            Some(active) => active.sector_id == owned,
            None => false,
        };
        if ends_active {
            self.active_rebuild = None;
            self.rebuilding_sector_count = 0;
        }
        proof {
            old_completed.lemma_push_to_set_commute(sector_id@);
            old_mounted.lemma_push_to_set_commute(sector_id@);
            old_reused.lemma_push_to_set_commute(sector_id@);
            lemma_contains_set(old_completed, sector_id@);
            lemma_contains_set(old_mounted, sector_id@);
            lemma_contains_set(old_reused, sector_id@);
            assert(self@.completed_ids =~= before.completed_ids.insert(sector_id@));
            assert(self@.mounted_ids =~= before.mounted_ids.insert(sector_id@));
            if reused {
                assert(self@.reused_ids =~= before.reused_ids.insert(sector_id@));
            }
        }
    }

    /// Restores progress recorded in `journal`: its completed sectors count
    /// as completed and reused, and its active sector becomes the active
    /// rebuild.
    pub fn apply_breadcrumb_resume(&mut self, journal: &BreadcrumbJournal)
        requires
            old(self).wf(),
            old(self).completed_dirty_sector_count + journal.completed_sectors@.len() <= usize::MAX,
            old(self).mounted_sector_count + journal.completed_sectors@.len() <= usize::MAX,
            old(self).reused_sector_count + journal.completed_sectors@.len() <= usize::MAX,
            journal.active_sector is Some ==> old(self).resumed_sector_count < usize::MAX,
        ensures
            final(self).wf(),
            old(self).counters_track_ids() ==> final(self).counters_track_ids(),
            final(self)@ == old(self)@.apply_breadcrumb_resume(
                texts(journal.completed_sectors@),
                journal_active(*journal),
            ),
    {
        let ghost start = self@;
        let mut i: usize = 0;
        while i < journal.completed_sectors.len()
            invariant
                self.wf(),
                i <= journal.completed_sectors@.len(),
                self@ == start.complete_all(texts(journal.completed_sectors@).take(i as int)),
                self.completed_dirty_sector_count <= start.completed + i,
                self.mounted_sector_count <= start.mounted + i,
                self.reused_sector_count <= start.reused + i,
                self.resumed_sector_count == start.resumed,
                start.completed + journal.completed_sectors@.len() <= usize::MAX,
                start.mounted + journal.completed_sectors@.len() <= usize::MAX,
                start.reused + journal.completed_sectors@.len() <= usize::MAX,
                old(self).counters_track_ids() ==> self.counters_track_ids(),
            decreases journal.completed_sectors.len() - i,
        {
            self.complete_dirty_rebuild(journal.completed_sectors[i].as_str(), true);
            proof {
                let t = texts(journal.completed_sectors@).take(i + 1);
                assert(t.drop_last() =~= texts(journal.completed_sectors@).take(i as int));
                assert(t.last() == journal.completed_sectors@[i as int]@);
            }
            i += 1;
        }
        proof {
            assert(texts(journal.completed_sectors@).take(i as int) =~= texts(journal.completed_sectors@));
        }
        match &journal.active_sector {
            Some(active) => {
                let resumed = active.next_member_offset > 0;
                self.start_dirty_rebuild(
                    active.sector_id.as_str(),
                    active.sector_member_count,
                    resumed,
                    active.next_member_offset,
                );
            },
            None => {},
        }
    }
}

/// Membership in a list's set is membership in the list.
proof fn lemma_contains_set(s: Seq<Seq<char>>, x: Seq<char>)
    ensures
        s.to_set().contains(x) == s.contains(x),
{
}


/// In a well-formed ledger whose counters are its lists' lengths, every
/// counter equals the number of distinct sector ids recorded behind it.
pub proof fn lemma_counts_match_ids(ledger: &FrontierLedger)
    requires
        ledger.wf(),
        ledger.counters_track_ids(),
    ensures
        ledger@.counts_match(),
{
    texts(ledger.mounted_sector_ids@).unique_seq_to_set();
    texts(ledger.reused_sector_ids@).unique_seq_to_set();
    texts(ledger.completed_dirty_sector_ids@).unique_seq_to_set();
    texts(ledger.resumed_sector_ids@).unique_seq_to_set();
}

/// Every operation keeps each counter equal to the size of its id set.
pub proof fn lemma_operations_keep_counts(
    m: LedgerModel,
    id: Seq<char>,
    count: nat,
    resumed: bool,
    offset: nat,
    reused: bool,
)
    requires
        m.counts_match(),
    ensures
        m.record_clean_mount(id).counts_match(),
        m.start_dirty_rebuild(id, count, resumed, offset).counts_match(),
        m.advance_dirty_rebuild(id, offset).counts_match(),
        m.complete_dirty_rebuild(id, reused).counts_match(),
{
}

/// Recording the same clean mount, or the same completion, twice has the
/// effect of recording it once.
pub proof fn lemma_repeated_records_are_idempotent(m: LedgerModel, id: Seq<char>, reused: bool)
    ensures
        m.record_clean_mount(id).record_clean_mount(id) == m.record_clean_mount(id),
        m.complete_dirty_rebuild(id, reused).complete_dirty_rebuild(id, reused)
            == m.complete_dirty_rebuild(id, reused),
{
    let a = m.record_clean_mount(id);
    assert(a.mounted_ids.insert(id) =~= a.mounted_ids);
    assert(a.reused_ids.insert(id) =~= a.reused_ids);
    let c = m.complete_dirty_rebuild(id, reused);
    assert(c.completed_ids.insert(id) =~= c.completed_ids);
    assert(c.mounted_ids.insert(id) =~= c.mounted_ids);
    if reused {
        assert(c.reused_ids.insert(id) =~= c.reused_ids);
    }
}

/// Every completed sector is mounted, and every operation keeps it so; a
/// completion ends any active rebuild of that sector; mounted and completed
/// counts never fall and the dirty count never rises.
pub proof fn lemma_progress_is_monotone(
    m: LedgerModel,
    id: Seq<char>,
    count: nat,
    resumed: bool,
    offset: nat,
    reused: bool,
)
    requires
        m.completed_ids.subset_of(m.mounted_ids),
    ensures
        m.record_clean_mount(id).completed_ids.subset_of(m.record_clean_mount(id).mounted_ids),
        m.start_dirty_rebuild(id, count, resumed, offset).completed_ids.subset_of(
            m.start_dirty_rebuild(id, count, resumed, offset).mounted_ids,
        ),
        m.advance_dirty_rebuild(id, offset).completed_ids.subset_of(
            m.advance_dirty_rebuild(id, offset).mounted_ids,
        ),
        m.complete_dirty_rebuild(id, reused).completed_ids.subset_of(
            m.complete_dirty_rebuild(id, reused).mounted_ids,
        ),
        m.complete_dirty_rebuild(id, reused).completed_ids.contains(id),
        m.complete_dirty_rebuild(id, reused).mounted_ids.contains(id),
        match m.complete_dirty_rebuild(id, reused).active {
            Some(a) => a.sector_id != id,
            None => true,
        },
        m.record_clean_mount(id).mounted >= m.mounted,
        m.record_clean_mount(id).dirty <= m.dirty,
        m.complete_dirty_rebuild(id, reused).mounted >= m.mounted,
        m.complete_dirty_rebuild(id, reused).completed >= m.completed,
        m.complete_dirty_rebuild(id, reused).dirty <= m.dirty,
{
}

/// A fresh ledger has matching counts and no completed sector outside the
/// mounted ones.
pub proof fn lemma_fresh_ledger(total: nat, dirty: nat)
    ensures
        LedgerModel::fresh(total, dirty).counts_match(),
        LedgerModel::fresh(total, dirty).completed_ids.subset_of(LedgerModel::fresh(total, dirty).mounted_ids),
{
}

/// Completing a list of sectors keeps the rebuild flag in step.
proof fn lemma_complete_all_keeps(m: LedgerModel, ids: Seq<Seq<char>>)
    requires
        m.rebuild_flag_matches(),
    ensures
        m.complete_all(ids).rebuild_flag_matches(),
    decreases ids.len(),
{
    if ids.len() > 0 {
        lemma_complete_all_keeps(m, ids.drop_last());
    }
}

/// No operation raises the dirty count or changes the total, and every
/// operation keeps the rebuilding count at one exactly while a rebuild is
/// active.
pub proof fn lemma_operations_keep_rebuild_flag(m: LedgerModel, op: LedgerOp)
    ensures
        m.apply(op).dirty <= m.dirty,
        m.apply(op).total == m.total,
        m.rebuild_flag_matches() ==> m.apply(op).rebuild_flag_matches(),
{
    match op {
        LedgerOp::Resume(completed, active) => {
            if m.rebuild_flag_matches() {
                lemma_complete_all_keeps(m, completed);
            }
            lemma_complete_all_dirty(m, completed);
        },
        _ => {},
    }
}

/// Completing a list of sectors keeps the total and never raises the dirty
/// count.
proof fn lemma_complete_all_dirty(m: LedgerModel, ids: Seq<Seq<char>>)
    ensures
        m.complete_all(ids).total == m.total,
        m.complete_all(ids).dirty <= m.dirty,
    decreases ids.len(),
{
    if ids.len() > 0 {
        lemma_complete_all_dirty(m, ids.drop_last());
    }
}

/// A ledger reached from a fresh one over `total` sectors, `dirty` of them
/// dirty, by any sequence of operations still counts `total` sectors, has at
/// most `dirty` dirty ones, and counts one rebuilding sector exactly while a
/// rebuild is active; along the way no operation raised the dirty count.
pub proof fn lemma_reachable_ledger(total: nat, dirty: nat, ops: Seq<LedgerOp>)
    ensures
        LedgerModel::fresh(total, dirty).apply_all(ops).total == total,
        LedgerModel::fresh(total, dirty).apply_all(ops).dirty <= dirty,
        LedgerModel::fresh(total, dirty).apply_all(ops).rebuild_flag_matches(),
        forall|i: int|
            0 <= i < ops.len() ==> #[trigger] LedgerModel::fresh(total, dirty).apply_all(ops.take(i + 1)).dirty
                <= LedgerModel::fresh(total, dirty).apply_all(ops.take(i)).dirty,
    decreases ops.len(),
{
    let f = LedgerModel::fresh(total, dirty);
    if ops.len() > 0 {
        let init = ops.drop_last();
        lemma_reachable_ledger(total, dirty, init);
        lemma_operations_keep_rebuild_flag(f.apply_all(init), ops.last());
        assert forall|i: int| 0 <= i < ops.len() implies #[trigger] f.apply_all(ops.take(i + 1)).dirty
            <= f.apply_all(ops.take(i)).dirty by {
            if i < ops.len() - 1 {
                assert(ops.take(i + 1) =~= init.take(i + 1));
                assert(ops.take(i) =~= init.take(i));
            } else {
                assert(ops.take(i + 1) =~= ops);
                assert(ops.take(i) =~= init);
            }
        }
    }
}

/// Advancing the active rebuild of sector `id` records `offset` as its next
/// member and changes nothing else; advancing any other sector, or when no
/// rebuild is active, changes nothing.
pub proof fn lemma_advance_records_offset(m: LedgerModel, id: Seq<char>, offset: nat)
    ensures
        match m.active {
            Some(a) => if a.sector_id == id {
                &&& m.advance_dirty_rebuild(id, offset).active == Some(ActiveRebuildModel {
                    sector_id: a.sector_id,
                    next_member_offset: offset,
                    sector_member_count: a.sector_member_count,
                    resumed: a.resumed,
                })
                &&& m.advance_dirty_rebuild(id, offset) == (LedgerModel {
                    active: m.advance_dirty_rebuild(id, offset).active,
                    ..m
                })
            } else {
                m.advance_dirty_rebuild(id, offset) == m
            },
            None => m.advance_dirty_rebuild(id, offset) == m,
        },
{
}

/// A rebuild started at some offset and then advanced to `offset` stands at
/// `offset`, with the sector, member count and resumption it started with.
pub proof fn lemma_start_then_advance(
    m: LedgerModel,
    id: Seq<char>,
    count: nat,
    resumed: bool,
    start: nat,
    offset: nat,
)
    ensures
        m.start_dirty_rebuild(id, count, resumed, start).advance_dirty_rebuild(id, offset).active == Some(
            ActiveRebuildModel { sector_id: id, next_member_offset: offset, sector_member_count: count, resumed },
        ),
{
}

} // verus!
