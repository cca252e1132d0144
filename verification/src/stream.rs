//! Stream bookkeeping: which of a device's streams are up, and when to ask for repairs.
use crate::control;
use crate::control::{stream_control_payload, STREAM_ALIVE_PREFIX, STREAM_REPAIR_PREFIX};
use crate::epoch::{IdentityView, SessionEpochIdentity};
use crate::getconf::MAX_STREAM_WORKERS;
use crate::table::Table;
use vstd::prelude::*;

verus! {

/// How long a stream may be missing before a repair is asked for.
pub const STREAM_REPAIR_GRACE_MS: u64 = 30_000;

/// How long after a repair request the next one follows.
pub const STREAM_REPAIR_ESCALATE_MS: u64 = 60_000;

/// How long after a notice of recovery the next one follows.
pub const STREAM_ALIVE_INTERVAL_MS: u64 = 10_000;

/// How often recovery is announced.
pub const STREAM_ALIVE_REPEAT: u8 = 2;

/// How many sessions carry one stream message.
pub const STREAM_CONTROL_CARRIERS: usize = 3;

/// How long the round of a device without sessions is kept while it is active.
pub const STREAM_ROUND_ORPHAN_TTL_MS: u64 = 60_000;

/// The streams of one device and key that are up.
pub struct StreamInventory {
    desired_count: u16,
    desired_session_id: u64,
    present: [bool; 127],
    carriers: Vec<usize>,
    seen: bool,
}

/// What a [`StreamInventory`] says.
#[verifier::ext_equal]
pub struct InventoryView {
    /// How many streams the latest session wants.
    pub desired_count: u16,
    /// The latest session.
    pub desired_session_id: u64,
    /// The workers whose stream is up.
    pub present: Set<int>,
    /// The slots that carry stream messages.
    pub carriers: Seq<usize>,
    pub seen: bool,
}

impl InventoryView {
    /// An inventory without any stream.
    pub open spec fn fresh() -> InventoryView {
        InventoryView {
            desired_count: 0,
            desired_session_id: 0,
            present: Set::empty(),
            carriers: Seq::empty(),
            seen: false,
        }
    }

    /// The inventory with one more session in it.
    pub open spec fn observing(self, source: SourceView) -> InventoryView {
        let latest = source.session_id >= self.desired_session_id;
        InventoryView {
            desired_count: if latest {
                source.desired_count
            } else {
                self.desired_count
            },
            desired_session_id: if latest {
                source.session_id
            } else {
                self.desired_session_id
            },
            present: self.present.insert(source.worker_id as int),
            carriers: if self.carriers.len() < STREAM_CONTROL_CARRIERS {
                self.carriers.push(source.slot)
            } else {
                self.carriers
            },
            seen: true,
        }
    }

    /// The workers up to number `upto` whose stream is missing, in ascending order.
    pub open spec fn missing_upto(self, upto: nat) -> Seq<u16>
        decreases upto,
    {
        if upto == 0 {
            Seq::empty()
        } else if self.present.contains(upto as int) {
            self.missing_upto((upto - 1) as nat)
        } else {
            self.missing_upto((upto - 1) as nat).push(upto as u16)
        }
    }

    /// How many streams there should be.
    pub open spec fn wanted(self) -> nat {
        if self.desired_count < MAX_STREAM_WORKERS {
            self.desired_count as nat
        } else {
            MAX_STREAM_WORKERS as nat
        }
    }

    /// The workers whose stream is missing, in ascending order.
    pub open spec fn missing(self) -> Seq<u16> {
        self.missing_upto(self.wanted())
    }
}

/// A session, as far as the inventory takes note of it.
pub struct StreamSource {
    pub slot: usize,
    pub session_id: u64,
    pub identity: SessionEpochIdentity,
    pub worker_id: u64,
    pub desired_count: u16,
    /// Whether the session has a route.
    pub registered: bool,
}

/// What a [`StreamSource`] says.
#[verifier::ext_equal]
pub struct SourceView {
    pub slot: usize,
    pub session_id: u64,
    pub identity: IdentityView,
    pub worker_id: u64,
    pub desired_count: u16,
    pub registered: bool,
}

impl View for StreamSource {
    type V = SourceView;

    open spec fn view(&self) -> SourceView {
        SourceView {
            slot: self.slot,
            session_id: self.session_id,
            identity: self.identity@,
            worker_id: self.worker_id,
            desired_count: self.desired_count,
            registered: self.registered,
        }
    }
}

impl SourceView {
    /// The session runs a stream: it has a route, and its worker number is within the number
    /// of streams that it wants.
    pub open spec fn streams(self) -> bool {
        &&& self.registered
        &&& 1 <= self.worker_id <= self.desired_count <= MAX_STREAM_WORKERS
    }
}

/// What the inventory of `identity` is, given the sessions.
pub open spec fn inventory_of(sources: Seq<SourceView>, identity: IdentityView) -> InventoryView
    decreases sources.len(),
{
    if sources.len() == 0 {
        InventoryView::fresh()
    } else {
        let before = inventory_of(sources.drop_last(), identity);
        let last = sources.last();
        if last.streams() && last.identity == identity {
            before.observing(last)
        } else {
            before
        }
    }
}

/// The inventories of all identities that run a stream.
pub open spec fn inventories(sources: Seq<SourceView>) -> Map<IdentityView, InventoryView> {
    Map::new(
        |identity: IdentityView|
            exists|i: int|
                0 <= i < sources.len() && #[trigger] sources[i].streams() && sources[i].identity
                    == identity,
        |identity: IdentityView| inventory_of(sources, identity),
    )
}

impl View for StreamInventory {
    type V = InventoryView;

    closed spec fn view(&self) -> InventoryView {
        InventoryView {
            desired_count: self.desired_count,
            desired_session_id: self.desired_session_id,
            present: Set::new(|worker: int| 0 <= worker <= MAX_STREAM_WORKERS && self.present@[worker]),
            carriers: self.carriers@,
            seen: self.seen,
        }
    }
}

impl StreamInventory {
    /// An inventory without any stream.
    pub fn new() -> (inventory: StreamInventory)
        ensures
            inventory@ == InventoryView::fresh(),
    {
        let inventory = StreamInventory {
            desired_count: 0,
            desired_session_id: 0,
            present: [false; 127],
            carriers: Vec::new(),
            seen: false,
        };
        assert(inventory@ =~= InventoryView::fresh());
        inventory
    }

    /// Forgets all streams.
    pub fn reset(&mut self)
        ensures
            final(self)@ == InventoryView::fresh(),
    {
        self.desired_count = 0;
        self.desired_session_id = 0;
        self.present = [false; 127];
        self.carriers.clear();
        self.seen = false;
        assert(self@ =~= InventoryView::fresh());
    }

    /// How many streams the latest session wants.
    pub fn desired_count(&self) -> (count: u16)
        ensures
            count == self@.desired_count,
    {
        self.desired_count
    }

    /// Whether any session was observed.
    pub fn is_seen(&self) -> (seen: bool)
        ensures
            seen == self@.seen,
    {
        self.seen
    }

    /// The slots that carry stream messages.
    pub fn carrier_slots(&self) -> (slots: Vec<usize>)
        ensures
            slots@ == self@.carriers,
    {
        let mut slots: Vec<usize> = Vec::new();
        let mut i: usize = 0;
        while i < self.carriers.len()
            invariant
                i <= self.carriers@.len(),
                slots@ == self.carriers@.subrange(0, i as int),
            decreases self.carriers.len() - i,
        {
            slots.push(self.carriers[i]);
            i += 1;
            assert(self.carriers@.subrange(0, i as int) =~= self.carriers@.subrange(
                0,
                i - 1,
            ).push(self.carriers@[i - 1]));
        }
        assert(self.carriers@.subrange(0, i as int) =~= self.carriers@);
        slots
    }

    /// Takes note of a session that runs a stream.
    pub fn observe(&mut self, source: &StreamSource)
        requires
            source@.streams(),
        ensures
            final(self)@ == old(self)@.observing(source@),
    {
        let ghost before = self@;
        if source.session_id >= self.desired_session_id {
            self.desired_count = source.desired_count;
            self.desired_session_id = source.session_id;
        }
        self.present[source.worker_id as usize] = true;
        self.seen = true;
        if self.carriers.len() < STREAM_CONTROL_CARRIERS {
            self.carriers.push(source.slot);
        }
        assert(self@ =~= before.observing(source@));
    }

    /// Appends the workers whose stream is missing to `out`.
    pub fn fill_missing(&self, out: &mut Vec<u16>)
        ensures
            final(out)@ == old(out)@ + self@.missing(),
    {
        let desired: u16 = if self.desired_count < MAX_STREAM_WORKERS {
            self.desired_count
        } else {
            MAX_STREAM_WORKERS
        };
        let ghost before = out@;
        assert(before + self@.missing_upto(0) =~= before);
        let mut worker: u16 = 0;
        while worker < desired
            invariant
                worker <= desired <= MAX_STREAM_WORKERS,
                out@ == before + self@.missing_upto(worker as nat),
            decreases desired - worker,
        {
            worker += 1;
            if !self.present[worker as usize] {
                out.push(worker);
                assert(out@ =~= before + self@.missing_upto(worker as nat));
            }
        }
    }
}

/// How the repair of one device's streams stands.
pub struct StreamRepairRound {
    pub sequence: u64,
    pub last_missing: Vec<u16>,
    pub first_missing_ms: u64,
    pub last_sent_ms: u64,
    pub alive_ids: Vec<u16>,
    pub alive_desired_count: u16,
    pub alive_sent_ms: u64,
    pub alive_sent: u8,
    pub last_seen_ms: u64,
}

/// What a [`StreamRepairRound`] says.
#[verifier::ext_equal]
pub struct RoundView {
    /// The number of the current request.
    pub sequence: u64,
    /// The workers that were missing last.
    pub last_missing: Seq<u16>,
    /// Since when.
    pub first_missing_ms: u64,
    /// When they were last asked for; zero where they were not.
    pub last_sent_ms: u64,
    /// The workers that came back.
    pub alive_ids: Seq<u16>,
    pub alive_desired_count: u16,
    /// When their recovery was last announced; zero where it was not.
    pub alive_sent_ms: u64,
    /// How often it was announced.
    pub alive_sent: u8,
    pub last_seen_ms: u64,
}

/// The number of the next request. Zero stands for no request.
pub open spec fn next_sequence(sequence: u64) -> u64 {
    if sequence == u64::MAX {
        1
    } else {
        (sequence + 1) as u64
    }
}

/// How much time has passed since `then`.
pub open spec fn since(now_ms: u64, then: u64) -> int {
    if now_ms >= then {
        now_ms - then
    } else {
        0
    }
}

impl RoundView {
    /// A round in which nothing was ever missing.
    pub open spec fn fresh() -> RoundView {
        RoundView {
            sequence: 0,
            last_missing: Seq::empty(),
            first_missing_ms: 0,
            last_sent_ms: 0,
            alive_ids: Seq::empty(),
            alive_desired_count: 0,
            alive_sent_ms: 0,
            alive_sent: 0,
            last_seen_ms: 0,
        }
    }

    /// The round once it is known that `missing` are missing: where they are not the ones
    /// known before, a new request starts.
    pub open spec fn noting(self, missing: Seq<u16>, now_ms: u64) -> RoundView {
        if missing == self.last_missing {
            self
        } else {
            RoundView {
                sequence: next_sequence(self.sequence),
                last_missing: missing,
                first_missing_ms: now_ms,
                last_sent_ms: 0,
                alive_ids: Seq::empty(),
                alive_sent: 0,
                ..self
            }
        }
    }

    /// A repair is to be asked for now.
    pub open spec fn repair_due(self, now_ms: u64) -> bool {
        &&& since(now_ms, self.first_missing_ms) >= STREAM_REPAIR_GRACE_MS
        &&& self.last_sent_ms != 0 ==> since(now_ms, self.last_sent_ms)
            >= STREAM_REPAIR_ESCALATE_MS
    }

    /// The round once a repair was asked for.
    pub open spec fn repairing(self, now_ms: u64) -> RoundView {
        RoundView {
            sequence: if self.last_sent_ms != 0 {
                next_sequence(self.sequence)
            } else {
                self.sequence
            },
            last_sent_ms: now_ms,
            ..self
        }
    }

    /// The round once `missing` were found missing.
    pub open spec fn after_missing(self, missing: Seq<u16>, now_ms: u64) -> RoundView {
        let noted = self.noting(missing, now_ms);
        if noted.repair_due(now_ms) {
            noted.repairing(now_ms)
        } else {
            noted
        }
    }

    /// The message that asks for the repair of `missing`, if one is due.
    pub open spec fn repair_message(
        self,
        missing: Seq<u16>,
        desired_count: u16,
        now_ms: u64,
    ) -> Option<Seq<u8>> {
        if self.noting(missing, now_ms).repair_due(now_ms) {
            Some(
                control::stream_message(
                    STREAM_REPAIR_PREFIX@,
                    self.after_missing(missing, now_ms).sequence,
                    desired_count,
                    missing,
                ),
            )
        } else {
            None
        }
    }

    /// The round once nothing is missing any more.
    pub open spec fn recovering(self, desired_count: u16, now_ms: u64) -> RoundView {
        if self.last_missing.len() == 0 {
            self
        } else {
            RoundView {
                last_missing: Seq::empty(),
                first_missing_ms: now_ms,
                last_sent_ms: 0,
                alive_ids: self.last_missing,
                alive_desired_count: desired_count,
                alive_sent_ms: 0,
                alive_sent: 0,
                ..self
            }
        }
    }

    /// The recovery is to be announced now.
    pub open spec fn alive_due(self, now_ms: u64) -> bool {
        &&& self.alive_ids.len() > 0
        &&& self.alive_sent < STREAM_ALIVE_REPEAT
        &&& self.alive_sent_ms != 0 ==> since(now_ms, self.alive_sent_ms)
            >= STREAM_ALIVE_INTERVAL_MS
    }

    /// The round once the recovery was announced, if that is due.
    pub open spec fn announcing(self, now_ms: u64) -> RoundView {
        if self.alive_due(now_ms) {
            RoundView {
                alive_sent: (self.alive_sent + 1) as u8,
                alive_sent_ms: now_ms,
                ..self
            }
        } else {
            self
        }
    }

    /// The message that announces the recovery, if that is due.
    pub open spec fn alive_message(self, now_ms: u64) -> Option<Seq<u8>> {
        if self.alive_due(now_ms) {
            Some(
                control::stream_message(
                    STREAM_ALIVE_PREFIX@,
                    self.sequence,
                    self.alive_desired_count,
                    self.alive_ids,
                ),
            )
        } else {
            None
        }
    }

    /// Something is missing, or a recovery is still to be announced.
    pub open spec fn is_active(self) -> bool {
        self.last_missing.len() > 0 || (self.alive_ids.len() > 0 && self.alive_sent
            < STREAM_ALIVE_REPEAT)
    }
}

impl View for StreamRepairRound {
    type V = RoundView;

    open spec fn view(&self) -> RoundView {
        RoundView {
            sequence: self.sequence,
            last_missing: self.last_missing@,
            first_missing_ms: self.first_missing_ms,
            last_sent_ms: self.last_sent_ms,
            alive_ids: self.alive_ids@,
            alive_desired_count: self.alive_desired_count,
            alive_sent_ms: self.alive_sent_ms,
            alive_sent: self.alive_sent,
            last_seen_ms: self.last_seen_ms,
        }
    }
}

impl Default for StreamRepairRound {
    /// A round in which nothing was ever missing.
    fn default() -> (round: StreamRepairRound)
        ensures
            round@ == RoundView::fresh(),
    {
        StreamRepairRound {
            sequence: 0,
            last_missing: Vec::new(),
            first_missing_ms: 0,
            last_sent_ms: 0,
            alive_ids: Vec::new(),
            alive_desired_count: 0,
            alive_sent_ms: 0,
            alive_sent: 0,
            last_seen_ms: 0,
        }
    }
}

/// Whether two lists of workers are the same.
fn same_workers(left: &[u16], right: &[u16]) -> (same: bool)
    ensures
        same == (left@ == right@),
{
    if left.len() != right.len() {
        return false;
    }
    let mut i: usize = 0;
    while i < left.len()
        invariant
            i <= left@.len() == right@.len(),
            forall|j: int| 0 <= j < i ==> left@[j] == right@[j],
        decreases left.len() - i,
    {
        if left[i] != right[i] {
            return false;
        }
        i += 1;
    }
    assert(left@ =~= right@);
    true
}

/// A list of the same workers.
fn copied_workers(workers: &[u16]) -> (copy: Vec<u16>)
    ensures
        copy@ == workers@,
{
    vstd::slice::slice_to_vec(workers)
}

fn following_sequence(sequence: u64) -> (next: u64)
    ensures
        next == next_sequence(sequence),
{
    if sequence == u64::MAX {
        1
    } else {
        sequence + 1
    }
}

impl StreamRepairRound {
    /// Takes note that `missing` are missing. The message that asks for their repair, if one
    /// is due.
    pub fn repair_payload(
        &mut self,
        missing: &[u16],
        desired_count: u16,
        now_ms: u64,
    ) -> (payload: Option<Vec<u8>>)
        ensures
            final(self)@ == old(self)@.after_missing(missing@, now_ms),
            match payload {
                Some(message) => old(self)@.repair_message(missing@, desired_count, now_ms) == Some(
                    message@,
                ),
                None => old(self)@.repair_message(missing@, desired_count, now_ms) is None,
            },
    {
        let ghost before = self@;
        if !same_workers(missing, self.last_missing.as_slice()) {
            self.sequence = following_sequence(self.sequence);
            self.last_missing = copied_workers(missing);
            self.first_missing_ms = now_ms;
            self.last_sent_ms = 0;
            self.alive_ids.clear();
            self.alive_sent = 0;
        }
        assert(self@ =~= before.noting(missing@, now_ms));
        if now_ms.saturating_sub(self.first_missing_ms) < STREAM_REPAIR_GRACE_MS {
            return None;
        }
        if self.last_sent_ms != 0 && now_ms.saturating_sub(self.last_sent_ms)
            < STREAM_REPAIR_ESCALATE_MS {
            return None;
        }
        if self.last_sent_ms != 0 {
            self.sequence = following_sequence(self.sequence);
        }
        self.last_sent_ms = now_ms;
        Some(
            stream_control_payload(
                STREAM_REPAIR_PREFIX.as_slice(),
                self.sequence,
                desired_count,
                self.last_missing.as_slice(),
            ),
        )
    }

    /// Takes note that nothing is missing any more.
    pub fn recovered(&mut self, desired_count: u16, now_ms: u64)
        ensures
            final(self)@ == old(self)@.recovering(desired_count, now_ms),
    {
        let ghost before = self@;
        if self.last_missing.len() == 0 {
            return ;
        }
        let mut empty: Vec<u16> = Vec::new();
        std::mem::swap(&mut self.last_missing, &mut empty);
        self.alive_ids = empty;
        self.alive_desired_count = desired_count;
        self.alive_sent_ms = 0;
        self.alive_sent = 0;
        self.first_missing_ms = now_ms;
        self.last_sent_ms = 0;
        assert(self@ =~= before.recovering(desired_count, now_ms));
    }

    /// The message that announces a recovery, if that is due.
    pub fn alive_payload(&mut self, now_ms: u64) -> (payload: Option<Vec<u8>>)
        ensures
            final(self)@ == old(self)@.announcing(now_ms),
            match payload {
                Some(message) => old(self)@.alive_message(now_ms) == Some(message@),
                None => old(self)@.alive_message(now_ms) is None,
            },
    {
        if self.alive_ids.len() == 0 || self.alive_sent >= STREAM_ALIVE_REPEAT || (
        self.alive_sent_ms != 0 && now_ms.saturating_sub(self.alive_sent_ms)
            < STREAM_ALIVE_INTERVAL_MS) {
            return None;
        }
        self.alive_sent = self.alive_sent + 1;
        self.alive_sent_ms = now_ms;
        Some(
            stream_control_payload(
                STREAM_ALIVE_PREFIX.as_slice(),
                self.sequence,
                self.alive_desired_count,
                self.alive_ids.as_slice(),
            ),
        )
    }

    /// Whether something is missing, or a recovery is still to be announced.
    pub fn active(&self) -> (active: bool)
        ensures
            active == self@.is_active(),
    {
        self.last_missing.len() > 0 || (self.alive_ids.len() > 0 && self.alive_sent
            < STREAM_ALIVE_REPEAT)
    }
}

/// Streams that have just gone missing are given time to come back by themselves.
pub proof fn repairs_wait_out_the_grace_period(
    round: RoundView,
    missing: Seq<u16>,
    desired_count: u16,
    noticed_ms: u64,
    now_ms: u64,
)
    requires
        missing != round.last_missing,
        noticed_ms <= now_ms < noticed_ms + STREAM_REPAIR_GRACE_MS,
    ensures
        round.repair_message(missing, desired_count, noticed_ms) is None,
        round.after_missing(missing, noticed_ms).repair_message(
            missing,
            desired_count,
            now_ms,
        ) is None,
{
}

/// A repair of the same streams is asked for again only when the last request has had its
/// time, and then under another number.
pub proof fn repairs_escalate_slowly(
    round: RoundView,
    missing: Seq<u16>,
    desired_count: u16,
    sent_ms: u64,
    now_ms: u64,
)
    requires
        sent_ms > 0,
        sent_ms <= now_ms,
        round.repair_message(missing, desired_count, sent_ms) is Some,
    ensures
        ({
            let sent = round.after_missing(missing, sent_ms);
            let again = sent.repair_message(missing, desired_count, now_ms);
            &&& again is Some <==> now_ms >= sent_ms + STREAM_REPAIR_ESCALATE_MS
            &&& again is Some ==> again != round.repair_message(missing, desired_count, sent_ms)
        }),
{
    let sent = round.after_missing(missing, sent_ms);
    assert(sent.noting(missing, now_ms) == sent);
    if now_ms >= sent_ms + STREAM_REPAIR_ESCALATE_MS {
        let later = sent.after_missing(missing, now_ms);
        control::stream_messages_are_told_apart(
            STREAM_REPAIR_PREFIX@,
            sent.sequence,
            later.sequence,
            desired_count,
            missing,
        );
    }
}

/// A recovery is announced to the full number of times at most, with a pause between.
pub proof fn recoveries_are_announced_sparingly(round: RoundView, first_ms: u64, now_ms: u64)
    requires
        first_ms > 0,
        first_ms <= now_ms,
        round.alive_due(first_ms),
    ensures
        round.announcing(first_ms).alive_sent <= STREAM_ALIVE_REPEAT,
        now_ms < first_ms + STREAM_ALIVE_INTERVAL_MS ==> !round.announcing(first_ms).alive_due(
            now_ms,
        ),
        round.announcing(first_ms).alive_sent == STREAM_ALIVE_REPEAT ==> !round.announcing(
            first_ms,
        ).alive_due(now_ms),
{
}

/// A report of what is missing.
#[verifier::ext_equal]
pub struct MissingReport {
    pub missing: Seq<u16>,
    pub desired_count: u16,
    pub now_ms: u64,
}

/// The round once the reports came in, one after the other.
pub open spec fn after_reports(round: RoundView, reports: Seq<MissingReport>) -> RoundView
    decreases reports.len(),
{
    if reports.len() == 0 {
        round
    } else {
        after_reports(round, reports.drop_last()).after_missing(
            reports.last().missing,
            reports.last().now_ms,
        )
    }
}

/// The message that report number `at` brings about, if any.
pub open spec fn message_at(round: RoundView, reports: Seq<MissingReport>, at: int) -> Option<
    Seq<u8>,
> {
    after_reports(round, reports.take(at)).repair_message(
        reports[at].missing,
        reports[at].desired_count,
        reports[at].now_ms,
    )
}

/// The number of the request that is current after report number `at`.
pub open spec fn sequence_at(round: RoundView, reports: Seq<MissingReport>, at: int) -> u64 {
    after_reports(round, reports.take(at + 1)).sequence
}

/// All reports say that something is missing, and time never goes back.
pub open spec fn reports_in_order(reports: Seq<MissingReport>) -> bool {
    &&& forall|i: int| 0 <= i < reports.len() ==> (#[trigger] reports[i]).missing.len() > 0
    &&& forall|i: int, j: int|
        0 <= i <= j < reports.len() ==> (#[trigger] reports[i]).now_ms <= (
        #[trigger] reports[j]).now_ms
}

/// From report number `first` to report number `last` the same workers are missing.
pub open spec fn unchanged(reports: Seq<MissingReport>, first: int, last: int) -> bool {
    forall|k: int|
        first <= k <= last ==> (#[trigger] reports[k]).missing == reports[first].missing
}

proof fn lemma_report(round: RoundView, reports: Seq<MissingReport>, at: int)
    requires
        0 <= at < reports.len(),
    ensures
        after_reports(round, reports.take(at + 1)) == after_reports(
            round,
            reports.take(at),
        ).after_missing(reports[at].missing, reports[at].now_ms),
        after_reports(round, reports.take(at + 1)).last_missing == reports[at].missing,
{
    assert(reports.take(at + 1).drop_last() =~= reports.take(at));
    assert(reports.take(at + 1).last() == reports[at]);
}

/// Since when the same workers are missing.
proof fn lemma_missing_since(
    round: RoundView,
    reports: Seq<MissingReport>,
    first: int,
    last: int,
)
    requires
        round.last_missing.len() == 0,
        reports_in_order(reports),
        0 <= first <= last < reports.len(),
        first > 0 ==> reports[first - 1].missing != reports[first].missing,
        unchanged(reports, first, last),
    ensures
        after_reports(round, reports.take(last + 1)).first_missing_ms == reports[first].now_ms,
    decreases last - first,
{
    lemma_report(round, reports, last);
    if first == last {
        if first > 0 {
            lemma_report(round, reports, first - 1);
        } else {
            assert(reports.take(0) =~= Seq::<MissingReport>::empty());
            assert(reports[0].missing.len() > 0);
        }
    } else {
        assert(unchanged(reports, first, last - 1));
        lemma_missing_since(round, reports, first, last - 1);
        lemma_report(round, reports, last - 1);
        assert(reports[last - 1].missing == reports[last].missing);
    }
}

/// When the same workers were last asked for.
proof fn lemma_asked_since(round: RoundView, reports: Seq<MissingReport>, first: int, last: int)
    requires
        reports_in_order(reports),
        0 <= first <= last < reports.len(),
        message_at(round, reports, first) is Some,
        unchanged(reports, first, last),
    ensures
        after_reports(round, reports.take(last + 1)).last_sent_ms >= reports[first].now_ms,
        reports[first].now_ms > 0,
    decreases last - first,
{
    lemma_report(round, reports, last);
    if first < last {
        assert(unchanged(reports, first, last - 1));
        lemma_asked_since(round, reports, first, last - 1);
        lemma_report(round, reports, last - 1);
        assert(reports[last - 1].missing == reports[last].missing);
        assert(reports[first].now_ms <= reports[last].now_ms);
    }
}

proof fn lemma_sequence_bound(round: RoundView, reports: Seq<MissingReport>, upto: int)
    requires
        round.sequence == 0,
        0 <= upto <= reports.len() < u64::MAX,
    ensures
        after_reports(round, reports.take(upto)).sequence <= upto,
    decreases upto,
{
    if upto > 0 {
        lemma_report(round, reports, upto - 1);
        lemma_sequence_bound(round, reports, upto - 1);
    } else {
        assert(reports.take(0) =~= Seq::<MissingReport>::empty());
    }
}

/// After a request, the number is higher or the request stands.
proof fn lemma_sequence_grows(
    round: RoundView,
    reports: Seq<MissingReport>,
    first: int,
    upto: int,
)
    requires
        round.sequence == 0,
        reports.len() < u64::MAX,
        0 <= first < upto <= reports.len(),
        message_at(round, reports, first) is Some,
    ensures
        ({
            let now = after_reports(round, reports.take(upto));
            let number = sequence_at(round, reports, first);
            &&& now.sequence >= number
            &&& now.sequence == number ==> now.last_sent_ms != 0
        }),
    decreases upto - first,
{
    lemma_report(round, reports, upto - 1);
    lemma_sequence_bound(round, reports, upto - 1);
    if first + 1 < upto {
        lemma_sequence_grows(round, reports, first, upto - 1);
    }
}

/// Whatever is reported: workers that go missing are asked for no sooner than the grace period
/// after they were first reported, while the same ones are missing without a break.
pub proof fn every_repair_waits_out_the_grace_period(
    reports: Seq<MissingReport>,
    first: int,
    at: int,
)
    requires
        reports_in_order(reports),
        0 <= first <= at < reports.len(),
        first > 0 ==> reports[first - 1].missing != reports[first].missing,
        unchanged(reports, first, at),
        message_at(RoundView::fresh(), reports, at) is Some,
    ensures
        reports[at].now_ms >= reports[first].now_ms + STREAM_REPAIR_GRACE_MS,
{
    let round = RoundView::fresh();
    lemma_missing_since(round, reports, first, at);
    lemma_report(round, reports, at);
    assert(reports[first].now_ms <= reports[at].now_ms);
}

/// Whatever is reported: two requests for the same workers, which were missing all the time
/// between, are the full time apart.
pub proof fn repairs_are_spaced_out(reports: Seq<MissingReport>, first: int, at: int)
    requires
        reports_in_order(reports),
        0 <= first < at < reports.len(),
        unchanged(reports, first, at),
        message_at(RoundView::fresh(), reports, first) is Some,
        message_at(RoundView::fresh(), reports, at) is Some,
    ensures
        reports[at].now_ms >= reports[first].now_ms + STREAM_REPAIR_ESCALATE_MS,
{
    let round = RoundView::fresh();
    assert(unchanged(reports, first, at - 1));
    lemma_asked_since(round, reports, first, at - 1);
    lemma_report(round, reports, at - 1);
    assert(reports[at - 1].missing == reports[at].missing);
}

/// Whatever is reported: each request has a higher number than those before it, and lists the
/// workers that its own report names.
pub proof fn repair_numbers_grow(reports: Seq<MissingReport>, first: int, at: int)
    requires
        reports.len() < u64::MAX,
        0 <= first < at < reports.len(),
        message_at(RoundView::fresh(), reports, first) is Some,
        message_at(RoundView::fresh(), reports, at) is Some,
    ensures
        sequence_at(RoundView::fresh(), reports, first) < sequence_at(
            RoundView::fresh(),
            reports,
            at,
        ),
        message_at(RoundView::fresh(), reports, at) == Some(
            control::stream_message(
                STREAM_REPAIR_PREFIX@,
                sequence_at(RoundView::fresh(), reports, at),
                reports[at].desired_count,
                reports[at].missing,
            ),
        ),
{
    let round = RoundView::fresh();
    lemma_report(round, reports, at);
    lemma_sequence_bound(round, reports, at);
    lemma_sequence_grows(round, reports, first, at);
}

/// The round once its recovery could be announced at these times.
pub open spec fn after_times(round: RoundView, times: Seq<u64>) -> RoundView
    decreases times.len(),
{
    if times.len() == 0 {
        round
    } else {
        after_times(round, times.drop_last()).announcing(times.last())
    }
}

/// How often the recovery is announced at these times.
pub open spec fn announcements(round: RoundView, times: Seq<u64>) -> nat
    decreases times.len(),
{
    if times.len() == 0 {
        0
    } else {
        announcements(round, times.drop_last()) + if after_times(
            round,
            times.drop_last(),
        ).alive_due(times.last()) {
            1nat
        } else {
            0
        }
    }
}

/// However often that is tried, a recovery is announced to the full number of times at most.
pub proof fn announcements_are_limited(round: RoundView, times: Seq<u64>)
    requires
        round.alive_sent <= STREAM_ALIVE_REPEAT,
    ensures
        round.alive_sent + announcements(round, times) <= STREAM_ALIVE_REPEAT,
        after_times(round, times).alive_sent == round.alive_sent + announcements(round, times),
    decreases times.len(),
{
    if times.len() > 0 {
        announcements_are_limited(round, times.drop_last());
    }
}

/// The workers listed as missing are those within the wanted number that are not present.
pub proof fn missing_workers_are_the_absent_ones(inventory: InventoryView, upto: nat, worker: u16)
    requires
        upto <= MAX_STREAM_WORKERS,
    ensures
        inventory.missing_upto(upto).contains(worker) <==> 1 <= worker <= upto
            && !inventory.present.contains(worker as int),
    decreases upto,
{
    if upto > 0 {
        let before = inventory.missing_upto((upto - 1) as nat);
        missing_workers_are_the_absent_ones(inventory, (upto - 1) as nat, worker);
        if !inventory.present.contains(upto as int) {
            let all = before.push(upto as u16);
            if before.contains(worker) {
                let i = choose|i: int| 0 <= i < before.len() && before[i] == worker;
                assert(all[i] == worker);
            }
            if worker == upto {
                assert(all[before.len() as int] == worker);
            }
            if all.contains(worker) {
                let i = choose|i: int| 0 <= i < all.len() && all[i] == worker;
                if i < before.len() {
                    assert(before[i] == worker);
                }
            }
        }
    }
}

/// What the sources say.
pub open spec fn source_views(sources: Seq<StreamSource>) -> Seq<SourceView> {
    Seq::new(sources.len(), |i: int| sources[i]@)
}

/// An identity has been seen where one of its sessions runs a stream.
proof fn lemma_seen(sources: Seq<SourceView>, identity: IdentityView)
    ensures
        inventory_of(sources, identity).seen <==> exists|i: int|
            0 <= i < sources.len() && #[trigger] sources[i].streams() && sources[i].identity
                == identity,
    decreases sources.len(),
{
    if sources.len() > 0 {
        let before = sources.drop_last();
        lemma_seen(before, identity);
        let last = sources.len() - 1;
        if inventory_of(before, identity).seen {
            let i = choose|i: int|
                0 <= i < before.len() && #[trigger] before[i].streams() && before[i].identity
                    == identity;
            assert(sources[i].streams() && sources[i].identity == identity);
        }
        if exists|i: int|
            0 <= i < sources.len() && #[trigger] sources[i].streams() && sources[i].identity
                == identity {
            let i = choose|i: int|
                0 <= i < sources.len() && #[trigger] sources[i].streams() && sources[i].identity
                    == identity;
            if i < last {
                assert(before[i].streams() && before[i].identity == identity);
            }
        }
        if sources[last].streams() && sources[last].identity == identity {
            assert(inventory_of(sources, identity).seen);
        }
    }
}

/// Forgets the streams of all identities.
fn reset_inventories(inventory: &mut Table<SessionEpochIdentity, StreamInventory>)
    requires
        old(inventory).wf(),
    ensures
        final(inventory).wf(),
        forall|id: IdentityView| #[trigger] final(inventory)@.contains_key(id) ==> final(inventory)@[id] == InventoryView::fresh(),
{
    let len: usize = inventory.len();
    let mut i: usize = 0;
    while i < len
        invariant
            i <= len == inventory.keys().len(),
            inventory.wf(),
            forall|j: int|
                0 <= j < i ==> inventory@[#[trigger] inventory.keys()[j]]
                    == InventoryView::fresh(),
        decreases len - i,
    {
        proof {
            inventory.keys_are_the_domain();
        }
        let streams = inventory.value_at_mut(i);
        streams.reset();
        i += 1;
    }
    proof {
        inventory.keys_are_the_domain();
        assert forall|id: IdentityView| #[trigger] inventory@.contains_key(id) implies inventory@[id]
            == InventoryView::fresh() by {
            let j = choose|j: int| 0 <= j < inventory.keys().len() && inventory.keys()[j] == id;
            assert(inventory@[inventory.keys()[j]] == InventoryView::fresh());
        }
    }
}

/// Drops the inventories in which no session was seen.
fn drop_unseen(inventory: &mut Table<SessionEpochIdentity, StreamInventory>)
    requires
        old(inventory).wf(),
    ensures
        final(inventory).wf(),
        forall|id: IdentityView|
            #![trigger final(inventory)@.contains_key(id)]
            final(inventory)@.contains_key(id) <==> old(inventory)@.contains_key(id) && old(inventory)@[id].seen,
        forall|id: IdentityView| #[trigger] final(inventory)@.contains_key(id) ==> final(inventory)@[id] == old(inventory)@[id],
{
    let ghost before = inventory@;
    let mut i: usize = 0;
    while i < inventory.len()
        invariant
            i <= inventory.keys().len(),
            inventory.wf(),
            forall|id: IdentityView| #[trigger] inventory@.contains_key(id) ==> before.contains_key(
                id,
            ) && inventory@[id] == before[id],
            forall|id: IdentityView| #[trigger] before.contains_key(id) && before[id].seen
                ==> inventory@.contains_key(id),
            forall|j: int| 0 <= j < i ==> inventory@[#[trigger] inventory.keys()[j]].seen,
        decreases inventory.keys().len() - i,
    {
        let ghost keys = inventory.keys();
        if inventory.value_at(i).is_seen() {
            i += 1;
        } else {
            proof {
                inventory.keys_are_the_domain();
            }
            let ghost gone = keys[i as int];
            let _ = inventory.remove_at(i);
            proof {
                assert forall|j: int| 0 <= j < i implies inventory@[#[trigger] inventory.keys()[j]].seen by {
                    assert(inventory.keys()[j] == keys[j]);
                    assert(keys[j] != gone);
                }
            }
        }
    }
    proof {
        inventory.keys_are_the_domain();
        assert forall|id: IdentityView| #[trigger] inventory@.contains_key(id) implies inventory@[id].seen by {
            let j = choose|j: int| 0 <= j < inventory.keys().len() && inventory.keys()[j] == id;
            assert(inventory@[inventory.keys()[j]].seen);
        }
    }
}

/// Takes stock of the streams of all sessions.
pub fn rebuild_inventory(
    inventory: &mut Table<SessionEpochIdentity, StreamInventory>,
    sources: &Vec<StreamSource>,
)
    requires
        old(inventory).wf(),
    ensures
        final(inventory).wf(),
        final(inventory)@ == inventories(source_views(sources@)),
{
    reset_inventories(inventory);
    let ghost views = source_views(sources@);
    let mut i: usize = 0;
    assert(views.take(0) =~= Seq::<SourceView>::empty());
    while i < sources.len()
        invariant
            i <= sources@.len(),
            inventory.wf(),
            views == source_views(sources@),
            forall|id: IdentityView| #[trigger] inventory@.contains_key(id) ==> inventory@[id]
                == inventory_of(views.take(i as int), id),
            forall|id: IdentityView|
                #![trigger inventory_of(views.take(i as int), id)]
                inventory_of(views.take(i as int), id).seen ==> inventory@.contains_key(id),
            forall|id: IdentityView|
                !(#[trigger] inventory@.contains_key(id)) ==> inventory_of(
                    views.take(i as int),
                    id,
                ) == InventoryView::fresh(),
        decreases sources.len() - i,
    {
        let source = &sources[i];
        let ghost map = inventory@;
        let ghost now = views.take(i as int);
        let ghost next = views.take(i + 1);
        proof {
            assert(next.drop_last() =~= now);
            assert(next.last() == source@);
        }
        if source.registered && source.worker_id >= 1 && source.worker_id
            <= source.desired_count as u64 && source.desired_count <= MAX_STREAM_WORKERS {
            let at: usize = match inventory.find(&source.identity) {
                Some(at) => at,
                None => {
                    let at: usize = inventory.len();
                    inventory.insert(source.identity.copy(), StreamInventory::new());
                    at
                },
            };
            assert(inventory@[source@.identity] == inventory_of(now, source@.identity));
            let streams = inventory.value_at_mut(at);
            streams.observe(source);
        }
        i += 1;
        proof {
            assert forall|id: IdentityView| #[trigger] inventory@.contains_key(id) implies inventory@[id]
                == inventory_of(next, id) by {}
            assert forall|id: IdentityView|
                #![trigger inventory_of(views.take(i as int), id)]
                inventory_of(views.take(i as int), id).seen implies inventory@.contains_key(id) by {
                assert(inventory_of(now, id).seen ==> map.contains_key(id));
            }
        }
    }
    drop_unseen(inventory);
    proof {
        assert(views.take(i as int) =~= views);
        assert forall|id: IdentityView| #[trigger] inventory@.contains_key(id) <==> inventories(
            views,
        ).contains_key(id) by {
            lemma_seen(views, id);
        }
        assert(inventory@ =~= inventories(views));
    }
}

/// A repair that was asked for, to be logged.
pub struct StreamRepairLog {
    pub device_id: String,
    pub generation_id: u64,
    pub desired_count: u16,
    pub sequence: u64,
    pub missing: Vec<u16>,
}

/// What a [`StreamRepairLog`] says.
#[verifier::ext_equal]
pub struct RepairLogView {
    pub device_id: Seq<char>,
    pub generation_id: u64,
    pub desired_count: u16,
    pub sequence: u64,
    pub missing: Seq<u16>,
}

impl View for StreamRepairLog {
    type V = RepairLogView;

    open spec fn view(&self) -> RepairLogView {
        RepairLogView {
            device_id: self.device_id@,
            generation_id: self.generation_id,
            desired_count: self.desired_count,
            sequence: self.sequence,
            missing: self.missing@,
        }
    }
}

/// A stream message and the sessions that are to carry it.
pub struct StreamControlAction {
    pub carriers: Vec<usize>,
    pub payload: Vec<u8>,
    pub repair: Option<StreamRepairLog>,
}

/// What a [`StreamControlAction`] says.
#[verifier::ext_equal]
pub struct ActionView {
    pub carriers: Seq<usize>,
    pub payload: Seq<u8>,
    pub repair: Option<RepairLogView>,
}

impl View for StreamControlAction {
    type V = ActionView;

    open spec fn view(&self) -> ActionView {
        ActionView {
            carriers: self.carriers@,
            payload: self.payload@,
            repair: match self.repair {
                Some(log) => Some(log@),
                None => None,
            },
        }
    }
}

/// The round of `identity`: the one on record, or a fresh one.
pub open spec fn round_of(
    repairs: Map<IdentityView, RoundView>,
    identity: IdentityView,
) -> RoundView {
    if repairs.contains_key(identity) {
        repairs[identity]
    } else {
        RoundView::fresh()
    }
}

/// How a round moves on, given the streams that are up.
pub open spec fn round_step(round: RoundView, streams: InventoryView, now_ms: u64) -> RoundView {
    let round = RoundView { last_seen_ms: now_ms, ..round };
    if streams.missing().len() == 0 {
        round.recovering(streams.desired_count, now_ms).announcing(now_ms)
    } else {
        round.after_missing(streams.missing(), now_ms)
    }
}

/// What is to be sent when a round moves on.
pub open spec fn round_action(
    identity: IdentityView,
    round: RoundView,
    streams: InventoryView,
    now_ms: u64,
) -> Option<ActionView> {
    let round = RoundView { last_seen_ms: now_ms, ..round };
    let missing = streams.missing();
    let message = if missing.len() == 0 {
        round.recovering(streams.desired_count, now_ms).alive_message(now_ms)
    } else {
        round.repair_message(missing, streams.desired_count, now_ms)
    };
    match message {
        None => None,
        Some(payload) => Some(
            ActionView {
                carriers: streams.carriers,
                payload,
                repair: if missing.len() == 0 {
                    None
                } else {
                    Some(
                        RepairLogView {
                            device_id: identity.device_id,
                            generation_id: identity.generation_id,
                            desired_count: streams.desired_count,
                            sequence: round.after_missing(missing, now_ms).sequence,
                            missing,
                        },
                    )
                },
            },
        ),
    }
}

/// What is to be sent for the identities listed, in their order.
pub open spec fn planned_actions(
    keys: Seq<IdentityView>,
    inventory: Map<IdentityView, InventoryView>,
    repairs: Map<IdentityView, RoundView>,
    now_ms: u64,
) -> Seq<ActionView>
    decreases keys.len(),
{
    if keys.len() == 0 {
        Seq::empty()
    } else {
        let before = planned_actions(keys.drop_last(), inventory, repairs, now_ms);
        let id = keys.last();
        match round_action(id, round_of(repairs, id), inventory[id], now_ms) {
            Some(action) => before.push(action),
            None => before,
        }
    }
}

/// The rounds once those of all identities in the inventory have moved on.
pub open spec fn stepped_rounds(
    inventory: Map<IdentityView, InventoryView>,
    repairs: Map<IdentityView, RoundView>,
    now_ms: u64,
) -> Map<IdentityView, RoundView> {
    Map::new(
        |id: IdentityView| repairs.contains_key(id) || inventory.contains_key(id),
        |id: IdentityView|
            if inventory.contains_key(id) {
                round_step(round_of(repairs, id), inventory[id], now_ms)
            } else {
                repairs[id]
            },
    )
}

/// What the actions say.
pub open spec fn action_views(actions: Seq<StreamControlAction>) -> Seq<ActionView> {
    Seq::new(actions.len(), |i: int| actions[i]@)
}

/// Moves one round on and plans what to send.
fn advance_round(
    identity: &SessionEpochIdentity,
    round: &mut StreamRepairRound,
    streams: &StreamInventory,
    now_ms: u64,
) -> (action: Option<StreamControlAction>)
    ensures
        final(round)@ == round_step(old(round)@, streams@, now_ms),
        match action {
            Some(action) => round_action(identity@, old(round)@, streams@, now_ms) == Some(action@),
            None => round_action(identity@, old(round)@, streams@, now_ms) is None,
        },
{
    round.last_seen_ms = now_ms;
    let mut missing: Vec<u16> = Vec::new();
    streams.fill_missing(&mut missing);
    assert(missing@ =~= streams@.missing());
    let desired_count: u16 = streams.desired_count();
    if missing.len() == 0 {
        round.recovered(desired_count, now_ms);
        match round.alive_payload(now_ms) {
            Some(payload) => Some(
                StreamControlAction { carriers: streams.carrier_slots(), payload, repair: None },
            ),
            None => None,
        }
    } else {
        match round.repair_payload(missing.as_slice(), desired_count, now_ms) {
            Some(payload) => Some(
                StreamControlAction {
                    carriers: streams.carrier_slots(),
                    payload,
                    repair: Some(
                        StreamRepairLog {
                            device_id: identity.device_id.clone(),
                            generation_id: identity.generation_id,
                            desired_count,
                            sequence: round.sequence,
                            missing,
                        },
                    ),
                },
            ),
            None => None,
        }
    }
}

/// Moves the rounds of all identities in the inventory on and plans what to send.
pub fn plan_streams(
    inventory: &Table<SessionEpochIdentity, StreamInventory>,
    repairs: &mut Table<SessionEpochIdentity, StreamRepairRound>,
    now_ms: u64,
) -> (actions: Vec<StreamControlAction>)
    requires
        inventory.wf(),
        old(repairs).wf(),
    ensures
        final(repairs).wf(),
        final(repairs)@ == stepped_rounds(inventory@, old(repairs)@, now_ms),
        action_views(actions@) == planned_actions(
            inventory.keys(),
            inventory@,
            old(repairs)@,
            now_ms,
        ),
{
    let ghost before = repairs@;
    let ghost keys = inventory.keys();
    let mut actions: Vec<StreamControlAction> = Vec::new();
    let mut i: usize = 0;
    proof {
        inventory.keys_are_the_domain();
        assert(keys.take(0) =~= Seq::<IdentityView>::empty());
        assert(action_views(actions@) =~= Seq::<ActionView>::empty());
    }
    while i < inventory.len()
        invariant
            i <= keys.len(),
            keys == inventory.keys(),
            keys.no_duplicates(),
            inventory.wf(),
            repairs.wf(),
            forall|id: IdentityView| #[trigger] repairs@.contains_key(id) <==> before.contains_key(
                id,
            ) || keys.take(i as int).contains(id),
            forall|id: IdentityView| #[trigger] repairs@.contains_key(id) ==> repairs@[id] == if keys.take(
                i as int,
            ).contains(id) {
                round_step(round_of(before, id), inventory@[id], now_ms)
            } else {
                before[id]
            },
            action_views(actions@) == planned_actions(
                keys.take(i as int),
                inventory@,
                before,
                now_ms,
            ),
        decreases keys.len() - i,
    {
        let identity = inventory.key_at(i);
        let streams = inventory.value_at(i);
        let ghost now = keys.take(i as int);
        let ghost next = keys.take(i + 1);
        let ghost listed = actions@;
        proof {
            assert(next =~= now.push(identity@));
            assert(next.drop_last() =~= now);
            assert(!now.contains(identity@)) by {
                if now.contains(identity@) {
                    let j = choose|j: int| 0 <= j < now.len() && now[j] == identity@;
                    assert(keys[j] == keys[i as int]);
                }
            }
        }
        let at: usize = match repairs.find(identity) {
            Some(at) => at,
            None => {
                let at: usize = repairs.len();
                repairs.insert(identity.copy(), StreamRepairRound::default());
                at
            },
        };
        assert(repairs@[identity@] == round_of(before, identity@));
        let round = repairs.value_at_mut(at);
        let action = advance_round(identity, round, streams, now_ms);
        match action {
            Some(action) => {
                actions.push(action);
                assert(action_views(actions@) =~= action_views(listed).push(action@));
            },
            None => {},
        }
        i += 1;
        proof {
            assert forall|id: IdentityView| next.contains(id) <==> now.contains(id) || id
                == identity@ by {
                if now.contains(id) {
                    let j = choose|j: int| 0 <= j < now.len() && now[j] == id;
                    assert(next[j] == id);
                }
                if id == identity@ {
                    assert(next[i - 1] == id);
                }
                if next.contains(id) {
                    let j = choose|j: int| 0 <= j < next.len() && next[j] == id;
                    if j < now.len() {
                        assert(now[j] == id);
                    }
                }
            }
        }
    }
    proof {
        assert(keys.take(i as int) =~= keys);
        assert(repairs@ =~= stepped_rounds(inventory@, before, now_ms));
    }
    actions
}

/// The round of an identity is kept: it has sessions, or nothing is under way, or it was
/// seen lately.
pub open spec fn round_kept(
    inventory: Map<IdentityView, InventoryView>,
    id: IdentityView,
    round: RoundView,
    now_ms: u64,
) -> bool {
    inventory.contains_key(id) || !round.is_active() || since(now_ms, round.last_seen_ms)
        < STREAM_ROUND_ORPHAN_TTL_MS
}

/// Drops the rounds of identities that have had no session for a while.
pub fn retire_rounds(
    inventory: &Table<SessionEpochIdentity, StreamInventory>,
    repairs: &mut Table<SessionEpochIdentity, StreamRepairRound>,
    now_ms: u64,
)
    requires
        inventory.wf(),
        old(repairs).wf(),
    ensures
        final(repairs).wf(),
        final(repairs)@ == old(repairs)@.restrict(
            Set::new(|id: IdentityView| round_kept(inventory@, id, old(repairs)@[id], now_ms)),
        ),
{
    let ghost before = repairs@;
    let mut i: usize = 0;
    while i < repairs.len()
        invariant
            i <= repairs.keys().len(),
            inventory.wf(),
            repairs.wf(),
            forall|id: IdentityView| #[trigger] repairs@.contains_key(id) ==> before.contains_key(
                id,
            ) && repairs@[id] == before[id],
            forall|id: IdentityView| #[trigger] before.contains_key(id) && round_kept(
                inventory@,
                id,
                before[id],
                now_ms,
            ) ==> repairs@.contains_key(id),
            forall|j: int|
                0 <= j < i ==> round_kept(
                    inventory@,
                    #[trigger] repairs.keys()[j],
                    before[repairs.keys()[j]],
                    now_ms,
                ),
        decreases repairs.keys().len() - i,
    {
        let ghost keys = repairs.keys();
        let round = repairs.value_at(i);
        let kept = inventory.contains_key(repairs.key_at(i)) || !round.active()
            || now_ms.saturating_sub(round.last_seen_ms) < STREAM_ROUND_ORPHAN_TTL_MS;
        if kept {
            i += 1;
        } else {
            proof {
                repairs.keys_are_the_domain();
            }
            let _ = repairs.remove_at(i);
            proof {
                assert forall|j: int| 0 <= j < i implies round_kept(
                    inventory@,
                    #[trigger] repairs.keys()[j],
                    before[repairs.keys()[j]],
                    now_ms,
                ) by {
                    assert(repairs.keys()[j] == keys[j]);
                }
            }
        }
    }
    proof {
        repairs.keys_are_the_domain();
        assert forall|id: IdentityView| #[trigger] repairs@.contains_key(id) implies round_kept(
            inventory@,
            id,
            before[id],
            now_ms,
        ) by {
            let j = choose|j: int| 0 <= j < repairs.keys().len() && repairs.keys()[j] == id;
            assert(round_kept(inventory@, repairs.keys()[j], before[repairs.keys()[j]], now_ms));
        }
        assert(repairs@ =~= before.restrict(
            Set::new(|id: IdentityView| round_kept(inventory@, id, before[id], now_ms)),
        ));
    }
}

} // verus!
