//! What a node knows of one peer, and how well the connection to it works.

use crate::address::PeerAddress;
use vstd::prelude::*;

verus! {

/// A peer that has not been heard from for longer than this is inactive.
pub const MAX_PEER_INACTIVITY_SECS: u8 = 30;

/// The number of failures at which a peer is dropped.
pub const MAX_PEER_FAILURES: u32 = 3;

/// The round-trip time, in milliseconds, above which a peer is dropped.
pub const MAX_PEER_RTT_MS: u64 = 1500;

/// The time, in seconds, that a task which is not aborted is given to end.
pub const TASK_SHUTDOWN_TIMEOUT_SECS: u64 = 5;

#[derive(Clone, Copy, Debug, PartialEq, Eq, Structural)]
pub enum PeerStatus {
    Routable,
    Unroutable,
}

/// A task that works for one peer only. The number names it to whoever runs
/// the tasks.
#[derive(Clone, Copy, Debug, PartialEq, Eq, Structural)]
pub struct PeerTask {
    pub id: u64,
    /// Whether the task may be cut off at once; if not, it is given time to end.
    pub abortable: bool,
}

/// What is to be done with a task of a peer that was disconnected.
#[derive(Clone, Copy, Debug, PartialEq, Eq, Structural)]
pub enum TaskAction {
    /// Cut the task off at once.
    Abort(u64),
    /// Wait for the task to end, `TASK_SHUTDOWN_TIMEOUT_SECS` at most.
    AwaitShutdown(u64),
}

/// The action that ends `task`.
pub open spec fn shutdown_action(task: PeerTask) -> TaskAction {
    if task.abortable {
        TaskAction::Abort(task.id)
    } else {
        TaskAction::AwaitShutdown(task.id)
    }
}

/// The actions that end `tasks`, the task registered last first.
pub open spec fn shutdown_actions(tasks: Seq<PeerTask>) -> Seq<TaskAction> {
    Seq::new(tasks.len(), |i: int| shutdown_action(tasks[tasks.len() - 1 - i]))
}

/// The time from `earlier` to `later` in milliseconds; zero if `later` is not
/// the later one.
pub open spec fn millis_between(earlier: i64, later: i64) -> u64 {
    if later >= earlier {
        (later - earlier) as u64
    } else {
        0
    }
}

/// Measures of how well the connection to a peer works. Times are in
/// milliseconds since the Unix epoch.
#[derive(Clone, Copy, Debug)]
pub struct PeerQuality {
    /// The block height that the peer reported last.
    pub block_height: u32,
    /// When the peer was heard from last.
    pub last_seen: Option<i64>,
    /// Whether a `Pong` is awaited from the peer.
    pub expecting_pong: bool,
    /// When the last `Ping` was sent to the peer.
    pub last_ping_sent: Option<i64>,
    /// The time between the last answered `Ping` and its `Pong`.
    pub rtt_ms: u64,
    /// The number of failures of the peer.
    pub failures: u32,
    /// The number of sync blocks that the peer still owes.
    pub remaining_sync_blocks: u32,
    /// The number of messages received from the peer.
    pub num_messages_received: u64,
}

impl PeerQuality {
    /// A `Pong` is awaited only after a `Ping` was sent.
    pub open spec fn wf(self) -> bool {
        self.expecting_pong ==> self.last_ping_sent is Some
    }

    pub open spec fn spec_new() -> PeerQuality {
        PeerQuality {
            block_height: 0,
            last_seen: None,
            expecting_pong: false,
            last_ping_sent: None,
            rtt_ms: 0,
            failures: 0,
            remaining_sync_blocks: 0,
            num_messages_received: 0,
        }
    }

    pub open spec fn spec_is_inactive(self, now: i64) -> bool {
        match self.last_seen {
            Some(seen) => now - seen > MAX_PEER_INACTIVITY_SECS as int * 1000,
            None => true,
        }
    }

    /// Whether the peer is to be dropped at the next maintenance: its round
    /// trip is too long, it failed too often, or it has been silent too long.
    pub open spec fn spec_is_low_quality(self, now: i64) -> bool {
        self.rtt_ms > MAX_PEER_RTT_MS || self.failures >= MAX_PEER_FAILURES
            || self.spec_is_inactive(now)
    }

    pub open spec fn spec_register_message(self, now: i64) -> PeerQuality {
        PeerQuality {
            last_seen: Some(now),
            num_messages_received: if self.num_messages_received == u64::MAX {
                0
            } else {
                (self.num_messages_received + 1) as u64
            },
            ..self
        }
    }

    pub open spec fn spec_sending_ping(self, now: i64) -> PeerQuality {
        PeerQuality { last_ping_sent: Some(now), expecting_pong: true, ..self }
    }

    pub open spec fn spec_received_ping(self, block_height: u32) -> PeerQuality {
        PeerQuality { block_height, ..self }
    }

    pub open spec fn spec_register_failure(self) -> PeerQuality {
        PeerQuality {
            failures: if self.failures == u32::MAX {
                0
            } else {
                (self.failures + 1) as u32
            },
            ..self
        }
    }

    pub open spec fn spec_received_pong(self, now: i64) -> PeerQuality {
        if self.expecting_pong {
            PeerQuality {
                rtt_ms: millis_between(self.last_ping_sent->Some_0, now),
                expecting_pong: false,
                ..self
            }
        } else {
            self.spec_register_failure()
        }
    }

    pub open spec fn spec_expecting_sync_blocks(self, count: u32) -> PeerQuality {
        PeerQuality { remaining_sync_blocks: count, ..self }
    }

    pub open spec fn spec_got_sync_block(self) -> PeerQuality {
        PeerQuality {
            remaining_sync_blocks: if self.remaining_sync_blocks == 0 {
                u32::MAX
            } else {
                (self.remaining_sync_blocks - 1) as u32
            },
            ..self
        }
    }

    pub open spec fn spec_cancel_syncing(self) -> PeerQuality {
        if self.remaining_sync_blocks != 0 {
            PeerQuality { remaining_sync_blocks: 0, ..self }.spec_register_failure()
        } else {
            self
        }
    }

    pub open spec fn spec_set_disconnected(self) -> PeerQuality {
        PeerQuality { expecting_pong: false, remaining_sync_blocks: 0, ..self }
    }

    pub fn new() -> (q: PeerQuality)
        ensures
            q == PeerQuality::spec_new(),
            q.wf(),
    {
        PeerQuality {
            block_height: 0,
            last_seen: None,
            expecting_pong: false,
            last_ping_sent: None,
            rtt_ms: 0,
            failures: 0,
            remaining_sync_blocks: 0,
            num_messages_received: 0,
        }
    }

    /// Whether the peer has been silent for more than
    /// `MAX_PEER_INACTIVITY_SECS` at the time `now`. A peer that was never
    /// heard from is inactive.
    pub fn is_inactive(&self, now: i64) -> (r: bool)
        ensures
            r == self.spec_is_inactive(now),
    {
        match self.last_seen {
            Some(seen) => {
                let silent: i128 = now as i128 - seen as i128;
                silent > MAX_PEER_INACTIVITY_SECS as i128 * 1000
            },
            None => true,
        }
    }

    pub fn is_low_quality(&self, now: i64) -> (r: bool)
        ensures
            r == self.spec_is_low_quality(now),
    {
        self.rtt_ms > MAX_PEER_RTT_MS || self.failures >= MAX_PEER_FAILURES || self.is_inactive(
            now,
        )
    }

    /// Notes a message of the peer, received at `now`.
    pub fn register_message(&mut self, now: i64)
        ensures
            *final(self) == old(self).spec_register_message(now),
            old(self).wf() ==> final(self).wf(),
    {
        self.last_seen = Some(now);
        self.num_messages_received = self.num_messages_received.wrapping_add(1);
    }

    /// Notes that a `Ping` goes out to the peer at `now`.
    pub fn sending_ping(&mut self, now: i64)
        ensures
            *final(self) == old(self).spec_sending_ping(now),
            final(self).wf(),
    {
        self.last_ping_sent = Some(now);
        self.expecting_pong = true;
    }

    /// Notes the block height that a `Ping` of the peer reported.
    pub fn received_ping(&mut self, block_height: u32)
        ensures
            *final(self) == old(self).spec_received_ping(block_height),
            old(self).wf() ==> final(self).wf(),
    {
        self.block_height = block_height;
    }

    /// Notes a `Pong` of the peer, received at `now`: if one was awaited, the
    /// round trip is measured; if none was, the peer has failed once more.
    pub fn received_pong(&mut self, now: i64)
        requires
            old(self).wf(),
        ensures
            *final(self) == old(self).spec_received_pong(now),
            final(self).wf(),
    {
        if self.expecting_pong {
            let sent: i64 = match self.last_ping_sent {
                Some(t) => t,
                None => now,
            };
            self.rtt_ms = elapsed_millis(sent, now);
            self.expecting_pong = false;
        } else {
            self.register_failure();
        }
    }

    pub fn register_failure(&mut self)
        ensures
            *final(self) == old(self).spec_register_failure(),
            old(self).wf() ==> final(self).wf(),
    {
        self.failures = self.failures.wrapping_add(1);
    }

    pub fn expecting_sync_blocks(&mut self, count: u32)
        ensures
            *final(self) == old(self).spec_expecting_sync_blocks(count),
            old(self).wf() ==> final(self).wf(),
    {
        self.remaining_sync_blocks = count;
    }

    /// Notes a sync block of the peer. Returns `true` if it was the last one
    /// that the peer owed.
    pub fn got_sync_block(&mut self) -> (finished: bool)
        ensures
            *final(self) == old(self).spec_got_sync_block(),
            finished == (old(self).remaining_sync_blocks == 1),
            finished ==> final(self).remaining_sync_blocks == 0,
            old(self).wf() ==> final(self).wf(),
    {
        let before: u32 = self.remaining_sync_blocks;
        self.remaining_sync_blocks = before.wrapping_sub(1);
        before == 1
    }

    /// Gives up the sync blocks that the peer still owes; owing any counts as
    /// a failure.
    pub fn cancel_syncing(&mut self)
        ensures
            *final(self) == old(self).spec_cancel_syncing(),
            old(self).wf() ==> final(self).wf(),
    {
        let missing: u32 = self.remaining_sync_blocks;
        self.remaining_sync_blocks = 0;
        if missing != 0 {
            self.register_failure();
        }
    }
}

/// What a `PeerInfo` holds.
pub struct PeerInfoView {
    pub address: PeerAddress,
    pub is_routable: bool,
    pub first_connected: Option<i64>,
    pub last_connected: Option<i64>,
    pub last_disconnected: Option<i64>,
    pub connected_count: u64,
    pub quality: PeerQuality,
    pub tasks: Seq<PeerTask>,
}

impl PeerInfoView {
    pub open spec fn wf(self) -> bool {
        self.quality.wf()
    }

    /// The record of a peer that was just heard of: routable, never connected.
    pub open spec fn fresh(address: PeerAddress) -> PeerInfoView {
        PeerInfoView {
            address,
            is_routable: true,
            first_connected: None,
            last_connected: None,
            last_disconnected: None,
            connected_count: 0,
            quality: PeerQuality::spec_new(),
            tasks: Seq::empty(),
        }
    }

    /// The record after a connection was made at `now`.
    pub open spec fn set_connected(self, now: i64) -> PeerInfoView {
        PeerInfoView {
            first_connected: if self.first_connected is None {
                Some(now)
            } else {
                self.first_connected
            },
            last_connected: Some(now),
            connected_count: if self.connected_count == u64::MAX {
                u64::MAX
            } else {
                (self.connected_count + 1) as u64
            },
            quality: PeerQuality { last_seen: Some(now), ..self.quality },
            ..self
        }
    }

    /// The record after the connection was closed at `now`: nothing is awaited
    /// from the peer any more, and it has no tasks.
    pub open spec fn set_disconnected(self, now: i64) -> PeerInfoView {
        PeerInfoView {
            last_disconnected: Some(now),
            quality: self.quality.spec_set_disconnected(),
            tasks: Seq::empty(),
            ..self
        }
    }

    /// The part of the record that is kept when the node stops: all but the
    /// quality and the tasks.
    pub open spec fn persisted(self) -> PeerInfoView {
        PeerInfoView { quality: PeerQuality::spec_new(), tasks: Seq::empty(), ..self }
    }

    pub open spec fn with_quality(self, quality: PeerQuality) -> PeerInfoView {
        PeerInfoView { quality, ..self }
    }

    pub open spec fn with_routable(self, is_routable: bool) -> PeerInfoView {
        PeerInfoView { is_routable, ..self }
    }

    pub open spec fn with_task(self, task: PeerTask) -> PeerInfoView {
        PeerInfoView { tasks: self.tasks.push(task), ..self }
    }
}

/// What the node knows of one peer.
#[derive(Debug)]
pub struct PeerInfo {
    /// The address at which the peer listens.
    address: PeerAddress,
    /// Whether a connection to the address can be made.
    is_routable: bool,
    /// When the first connection to the peer was made.
    first_connected: Option<i64>,
    /// When the last connection to the peer was made.
    last_connected: Option<i64>,
    /// When the last connection to the peer was closed.
    last_disconnected: Option<i64>,
    /// The number of connections made to the peer.
    connected_count: u64,
    /// How well the connection works.
    quality: PeerQuality,
    /// The tasks that work for this peer only, in the order of registration.
    tasks: Vec<PeerTask>,
}

impl View for PeerInfo {
    type V = PeerInfoView;

    closed spec fn view(&self) -> PeerInfoView {
        PeerInfoView {
            address: self.address,
            is_routable: self.is_routable,
            first_connected: self.first_connected,
            last_connected: self.last_connected,
            last_disconnected: self.last_disconnected,
            connected_count: self.connected_count,
            quality: self.quality,
            tasks: self.tasks@,
        }
    }
}

impl PeerInfo {
    pub fn new(address: PeerAddress) -> (info: PeerInfo)
        ensures
            info@ == PeerInfoView::fresh(address),
            info@.wf(),
    {
        PeerInfo {
            address,
            is_routable: true,
            first_connected: None,
            last_connected: None,
            last_disconnected: None,
            connected_count: 0,
            quality: PeerQuality::new(),
            tasks: Vec::new(),
        }
    }

    /// Builds a record from its parts.
    pub fn from_parts(
        address: PeerAddress,
        is_routable: bool,
        first_connected: Option<i64>,
        last_connected: Option<i64>,
        last_disconnected: Option<i64>,
        connected_count: u64,
    ) -> (info: PeerInfo)
        ensures
            info@ == (PeerInfoView {
                address,
                is_routable,
                first_connected,
                last_connected,
                last_disconnected,
                connected_count,
                quality: PeerQuality::spec_new(),
                tasks: Seq::empty(),
            }),
            info@.wf(),
    {
        PeerInfo {
            address,
            is_routable,
            first_connected,
            last_connected,
            last_disconnected,
            connected_count,
            quality: PeerQuality::new(),
            tasks: Vec::new(),
        }
    }

    pub fn address(&self) -> (r: PeerAddress)
        ensures
            r == self@.address,
    {
        self.address
    }

    pub fn is_routable(&self) -> (r: bool)
        ensures
            r == self@.is_routable,
    {
        self.is_routable
    }

    pub fn status(&self) -> (r: PeerStatus)
        ensures
            r == if self@.is_routable {
                PeerStatus::Routable
            } else {
                PeerStatus::Unroutable
            },
    {
        if self.is_routable {
            PeerStatus::Routable
        } else {
            PeerStatus::Unroutable
        }
    }

    pub fn block_height(&self) -> (r: u32)
        ensures
            r == self@.quality.block_height,
    {
        self.quality.block_height
    }

    pub fn last_seen(&self) -> (r: Option<i64>)
        ensures
            r == self@.quality.last_seen,
    {
        self.quality.last_seen
    }

    pub fn first_connected(&self) -> (r: Option<i64>)
        ensures
            r == self@.first_connected,
    {
        self.first_connected
    }

    pub fn last_connected(&self) -> (r: Option<i64>)
        ensures
            r == self@.last_connected,
    {
        self.last_connected
    }

    pub fn last_disconnected(&self) -> (r: Option<i64>)
        ensures
            r == self@.last_disconnected,
    {
        self.last_disconnected
    }

    pub fn connected_count(&self) -> (r: u64)
        ensures
            r == self@.connected_count,
    {
        self.connected_count
    }

    pub fn quality(&self) -> (r: PeerQuality)
        ensures
            r == self@.quality,
    {
        self.quality
    }

    /// The tasks of the peer, in the order of registration.
    pub fn tasks(&self) -> (r: Vec<PeerTask>)
        ensures
            r@ == self@.tasks,
    {
        copy_tasks(&self.tasks)
    }

    /// A copy of the record.
    pub fn duplicate(&self) -> (r: PeerInfo)
        ensures
            r@ == self@,
    {
        PeerInfo {
            address: self.address,
            is_routable: self.is_routable,
            first_connected: self.first_connected,
            last_connected: self.last_connected,
            last_disconnected: self.last_disconnected,
            connected_count: self.connected_count,
            quality: self.quality,
            tasks: copy_tasks(&self.tasks),
        }
    }

    /// A copy of the part of the record that is kept when the node stops.
    pub fn persisted(&self) -> (r: PeerInfo)
        ensures
            r@ == self@.persisted(),
            r@.wf(),
    {
        PeerInfo {
            address: self.address,
            is_routable: self.is_routable,
            first_connected: self.first_connected,
            last_connected: self.last_connected,
            last_disconnected: self.last_disconnected,
            connected_count: self.connected_count,
            quality: PeerQuality::new(),
            tasks: Vec::new(),
        }
    }

    pub fn set_quality(&mut self, quality: PeerQuality)
        ensures
            final(self)@ == old(self)@.with_quality(quality),
    {
        self.quality = quality;
    }

    pub fn set_is_routable(&mut self, is_routable: bool)
        ensures
            final(self)@ == old(self)@.with_routable(is_routable),
    {
        self.is_routable = is_routable;
    }

    /// Notes that a connection to the peer was made at `now`.
    pub fn set_connected(&mut self, now: i64)
        ensures
            final(self)@ == old(self)@.set_connected(now),
    {
        if self.first_connected.is_none() {
            self.first_connected = Some(now);
        }
        self.last_connected = Some(now);
        self.quality.last_seen = Some(now);
        self.connected_count = self.connected_count.saturating_add(1);
    }

    /// Notes that the connection to the peer was closed at `now`, and hands
    /// out what is to be done with the tasks of the peer, the task that was
    /// registered last first.
    pub fn set_disconnected(&mut self, now: i64) -> (actions: Vec<TaskAction>)
        ensures
            final(self)@ == old(self)@.set_disconnected(now),
            actions@ == shutdown_actions(old(self)@.tasks),
    {
        self.last_disconnected = Some(now);
        self.quality.expecting_pong = false;
        self.quality.remaining_sync_blocks = 0;
        let mut actions: Vec<TaskAction> = Vec::new();
        let ghost tasks = self.tasks@;
        while self.tasks.len() > 0
            invariant
                self.tasks@.len() <= tasks.len(),
                self.tasks@ == tasks.subrange(0, self.tasks@.len() as int),
                actions@ == shutdown_actions(tasks).subrange(
                    0,
                    tasks.len() - self.tasks@.len(),
                ),
                self.address == old(self).address,
                self.is_routable == old(self).is_routable,
                self.first_connected == old(self).first_connected,
                self.last_connected == old(self).last_connected,
                self.connected_count == old(self).connected_count,
                self.last_disconnected == Some(now),
                self.quality == old(self).quality.spec_set_disconnected(),
            decreases self.tasks@.len(),
        {
            let n: usize = self.tasks.len();
            let task: PeerTask = self.tasks[n - 1];
            self.tasks.pop();
            let action = if task.abortable {
                TaskAction::Abort(task.id)
            } else {
                TaskAction::AwaitShutdown(task.id)
            };
            actions.push(action);
            proof {
                let all = shutdown_actions(tasks);
                let k = tasks.len() - n;
                assert(all[k] == shutdown_action(tasks[n - 1]));
                assert(actions@ =~= all.subrange(0, k + 1));
                assert(self.tasks@ =~= tasks.subrange(0, n - 1));
            }
        }
        proof {
            assert(self.tasks@ =~= Seq::<PeerTask>::empty());
            assert(actions@ =~= shutdown_actions(tasks));
        }
        actions
    }

    /// Adds a task that works for this peer.
    pub fn register_task(&mut self, id: u64, abortable: bool)
        ensures
            final(self)@ == old(self)@.with_task(PeerTask { id, abortable }),
    {
        self.tasks.push(PeerTask { id, abortable });
    }
}

impl Clone for PeerInfo {
    fn clone(&self) -> (r: PeerInfo)
        ensures
            r@ == self@,
    {
        self.duplicate()
    }
}

impl Default for PeerQuality {
    fn default() -> (q: PeerQuality)
        ensures
            q == PeerQuality::spec_new(),
    {
        PeerQuality::new()
    }
}

fn copy_tasks(tasks: &Vec<PeerTask>) -> (r: Vec<PeerTask>)
    ensures
        r@ == tasks@,
{
    let mut r: Vec<PeerTask> = Vec::with_capacity(tasks.len());
    let mut i: usize = 0;
    while i < tasks.len()
        invariant
            i <= tasks.len(),
            r@ == tasks@.subrange(0, i as int),
        decreases tasks.len() - i,
    {
        r.push(tasks[i]);
        i += 1;
        proof {
            assert(r@ =~= tasks@.subrange(0, i as int));
        }
    }
    proof {
        assert(r@ =~= tasks@);
    }
    r
}

/// The time from `earlier` to `later` in milliseconds.
pub fn elapsed_millis(earlier: i64, later: i64) -> (r: u64)
    ensures
        r == millis_between(earlier, later),
{
    if later >= earlier {
        (later as i128 - earlier as i128) as u64
    } else {
        0
    }
}

} // verus!
