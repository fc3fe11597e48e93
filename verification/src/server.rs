//! The game server's state and the decisions of its loops: accepting and dropping
//! clients, handling their messages each logic frame, assigning sessions to network
//! workers, and sizing and metering the loops.

use vstd::prelude::*;

use crate::handler::{
    handle_message, handled, inbox_handled, process_inbox, refusal_report, refusals, replies,
    string_views,
};
use crate::map::GameMap;
use crate::msg::MsgIn;
use crate::session::{Session, SessionView, Sessions, lemma_key_not_in_prefix, new_session_view};

verus! {

broadcast use vstd::seq_lib::lemma_seq_contains_after_push;

/// The key that the first client to connect gets.
pub const FIRST_SESSION_KEY: u32 = 1000;

/// The key that the first game object gets.
pub const FIRST_OBJECT_KEY: u32 = 1000000;

/// The sessions after a logic frame: every message of every session has been handled,
/// then the sessions of clients that are gone have been dropped.
pub open spec fn after_update(before: Map<u32, SessionView>) -> Map<u32, SessionView> {
    Map::new(
        |k: u32| before.contains_key(k) && before[k].alive,
        |k: u32| inbox_handled(before[k]),
    )
}

/// Whether `after` differs from `before` at most in its sessions.
pub open spec fn keeps_all_but_sessions(before: GameServer, after: GameServer) -> bool {
    &&& after.next_session_key == before.next_session_key
    &&& after.next_object_key == before.next_object_key
    &&& after.timestamp_server_start == before.timestamp_server_start
    &&& after.timestamp_server_end == before.timestamp_server_end
    &&& after.game_map == before.game_map
}

/// The state of the game server: the connected clients, the map, and the keys that the
/// next client and the next game object will get.
pub struct GameServer {
    pub timestamp_server_start: u64,
    pub timestamp_server_end: u64,
    pub sessions: Sessions,
    pub game_map: GameMap,
    pub next_session_key: u32,
    pub next_object_key: u32,
}

/// The number of network workers for a machine with `total_thread_cnt` hardware
/// threads: four threads are left to the rest of the server, the remainder is rounded
/// down to a multiple of four, and the result is kept between 1 and 16.
pub open spec fn network_task_count_spec(total_thread_cnt: int) -> int {
    let adjusted = ((total_thread_cnt - 4) / 4) * 4;
    if adjusted < 1 {
        1
    } else if adjusted > 16 {
        16
    } else {
        adjusted
    }
}

/// The number of network workers for `total_thread_cnt` hardware threads, of which there
/// must be at least four.
pub fn network_task_count(total_thread_cnt: usize) -> (n: usize)
    requires
        total_thread_cnt >= 4,
    ensures
        n == network_task_count_spec(total_thread_cnt as int),
{
    let calculated_cnt = total_thread_cnt - 4;
    let adjusted_cnt = calculated_cnt - (calculated_cnt % 4);
    assert(adjusted_cnt == (calculated_cnt / 4) * 4) by (nonlinear_arith)
        requires
            adjusted_cnt == calculated_cnt - (calculated_cnt % 4),
    ;
    if adjusted_cnt < 1 {
        1
    } else if adjusted_cnt > 16 {
        16
    } else {
        adjusted_cnt
    }
}

/// There is always at least one network worker and never more than 16, and their
/// number is 1 or a multiple of four.
pub proof fn lemma_network_task_count_bounds(total_thread_cnt: int)
    requires
        total_thread_cnt >= 4,
    ensures
        1 <= network_task_count_spec(total_thread_cnt) <= 16,
        network_task_count_spec(total_thread_cnt) == 1 || network_task_count_spec(total_thread_cnt) % 4 == 0,
{
    let a = ((total_thread_cnt - 4) / 4) * 4;
    assert(a % 4 == 0) by (nonlinear_arith)
        requires
            a == ((total_thread_cnt - 4) / 4) * 4,
    ;
}

/// The key counter after `n` more connections from `first`: it advances by one per
/// connection, wrapping around at the end of the `u32` range.
pub open spec fn session_key_after(first: u32, n: nat) -> int {
    (first + n) % 0x1_0000_0000
}

/// One connection advances the key counter from `session_key_after(first, n)` to
/// `session_key_after(first, n + 1)`.
pub proof fn lemma_session_key_step(first: u32, n: nat)
    ensures
        (session_key_after(first, n) as u32).wrapping_add(1) == session_key_after(first, n + 1),
{
    let m: int = 0x1_0000_0000;
    let a = (first + n) % m;
    assert((a + 1) % m == (first + n + 1) % m) by (nonlinear_arith)
        requires
            a == (first + n) % m,
            m == 0x1_0000_0000,
    ;
}

/// Connections that follow one another get distinct keys, as long as fewer than 2^32 of
/// them are made: the key counter comes back to a value only after 2^32 steps.
pub proof fn lemma_session_keys_distinct(first: u32, i: nat, j: nat)
    requires
        i < j < 0x1_0000_0000,
    ensures
        session_key_after(first, i) != session_key_after(first, j),
{
    let m: int = 0x1_0000_0000;
    assert((first + i) % m != (first + j) % m) by (nonlinear_arith)
        requires
            0 <= i < j < m,
            0 <= first,
            m == 0x1_0000_0000,
    ;
}

/// Whether `keys` are the keys handed out by successive connections: each call of
/// `GameServer::handle_connection` returns the counter and advances it by
/// `wrapping_add(1)`, so each key follows from the one before it.
pub open spec fn successive_connection_keys(keys: Seq<u32>) -> bool {
    forall|j: int| 0 <= j < keys.len() - 1 ==> #[trigger] keys[j + 1] == keys[j].wrapping_add(1)
}

/// The `j`-th of successive connection keys (counting from 0) is the first advanced `j`
/// times around the `u32` range.
pub proof fn lemma_successive_keys(keys: Seq<u32>)
    requires
        keys.len() >= 1,
        successive_connection_keys(keys),
    ensures
        forall|j: int| 0 <= j < keys.len() ==> #[trigger] keys[j] == session_key_after(keys[0], j as nat),
    decreases keys.len(),
{
    if keys.len() > 1 {
        let prefix = keys.drop_last();
        assert(successive_connection_keys(prefix)) by {
            assert forall|j: int| 0 <= j < prefix.len() - 1 implies #[trigger] prefix[j + 1] == prefix[j].wrapping_add(1) by {
                assert(keys[j + 1] == keys[j].wrapping_add(1));
            }
        }
        lemma_successive_keys(prefix);
        let last = keys.len() - 1;
        assert(keys[last - 1] == prefix[last - 1]);
        assert(keys[last - 1] == session_key_after(keys[0], (last - 1) as nat));
        lemma_session_key_step(keys[0], (last - 1) as nat);
        assert(keys[last] == keys[last - 1].wrapping_add(1));
        assert forall|j: int| 0 <= j < keys.len() implies #[trigger] keys[j] == session_key_after(keys[0], j as nat) by {
            if j < last {
                assert(keys[j] == prefix[j]);
            }
        }
    } else {
        assert(keys[0] == session_key_after(keys[0], 0)) by {
            assert((keys[0] + 0) % 0x1_0000_0000 == keys[0] as int);
        }
    }
}

/// Successive connections get distinct keys as long as at most 2^32 of them are made,
/// so no connection's session overwrites another's.
pub proof fn lemma_successive_keys_distinct(keys: Seq<u32>, i: int, j: int)
    requires
        successive_connection_keys(keys),
        keys.len() <= 0x1_0000_0000,
        0 <= i < j < keys.len(),
    ensures
        keys[i] != keys[j],
{
    lemma_successive_keys(keys);
    assert(keys[i] == session_key_after(keys[0], i as nat));
    assert(keys[j] == session_key_after(keys[0], j as nat));
    lemma_session_keys_distinct(keys[0], i as nat, j as nat);
}

/// From a new server, the `i`-th connection (counting from 0) gets key
/// `FIRST_SESSION_KEY + i`, for as long as that fits in a `u32`.
pub proof fn lemma_connection_key_from_start(keys: Seq<u32>, i: int)
    requires
        successive_connection_keys(keys),
        keys.len() >= 1,
        keys[0] == FIRST_SESSION_KEY,
        0 <= i < keys.len(),
        FIRST_SESSION_KEY + i <= u32::MAX,
    ensures
        keys[i] == FIRST_SESSION_KEY + i,
{
    lemma_successive_keys(keys);
    assert(keys[i] == session_key_after(keys[0], i as nat));
    assert((FIRST_SESSION_KEY + i) % 0x1_0000_0000 == FIRST_SESSION_KEY + i);
}

/// Sessions stored under distinct keys are both kept: the second does not replace the
/// first.
pub proof fn lemma_distinct_keys_keep_both(
    before: Map<u32, SessionView>,
    k1: u32,
    s1: SessionView,
    k2: u32,
    s2: SessionView,
)
    requires
        k1 != k2,
    ensures
        before.insert(k1, s1).insert(k2, s2).contains_key(k1),
        before.insert(k1, s1).insert(k2, s2).contains_key(k2),
        before.insert(k1, s1).insert(k2, s2)[k1] == s1,
        before.insert(k1, s1).insert(k2, s2)[k2] == s2,
{
}

/// After a logic frame exactly the sessions of clients that are still connected remain,
/// whatever their queues held; each kept session has an empty incoming queue, keeps its
/// key, address, login state and player object, and its earlier outgoing messages stay
/// at the front of its outgoing queue.
pub proof fn lemma_update_keeps_exactly_connected(before: Map<u32, SessionView>, k: u32)
    ensures
        after_update(before).contains_key(k) <==> (before.contains_key(k) && before[k].alive),
        after_update(before).contains_key(k) ==> {
            let a = after_update(before)[k];
            let b = before[k];
            &&& a.inbound.len() == 0
            &&& a.alive && a.key == b.key && a.address == b.address && a.session == b.session
            &&& a.user_index == b.user_index && a.user_access_token == b.user_access_token
            &&& a.player_object_key == b.player_object_key
            &&& a.outbound.len() >= b.outbound.len()
            &&& a.outbound.subrange(0, b.outbound.len() as int) == b.outbound
        },
{
    if after_update(before).contains_key(k) {
        let b = before[k];
        let a = after_update(before)[k];
        assert(a.outbound.subrange(0, b.outbound.len() as int) =~= b.outbound);
    }
}

/// A connection that is dropped again leaves the session table as it was, where the
/// key it got had no session before.
pub proof fn lemma_disconnect_undoes_connect(
    before: Map<u32, SessionView>,
    key: u32,
    address: Option<String>,
)
    requires
        !before.contains_key(key),
    ensures
        before.insert(key, new_session_view(key, address)).remove(key) == before,
{
    assert(before.insert(key, new_session_view(key, address)).remove(key) =~= before);
}

/// What a logic frame does to a session depends on that session alone: two session
/// tables that agree on a session agree on it after the frame.
pub proof fn lemma_update_per_session(a: Map<u32, SessionView>, b: Map<u32, SessionView>, k: u32)
    requires
        a.contains_key(k),
        b.contains_key(k),
        a[k] == b[k],
    ensures
        after_update(a).contains_key(k) == after_update(b).contains_key(k),
        after_update(a).contains_key(k) ==> after_update(a)[k] == after_update(b)[k],
{
}

/// A logic frame over connected clients that sent nothing changes nothing.
pub proof fn lemma_update_idle(before: Map<u32, SessionView>)
    requires
        forall|k: u32| #[trigger] before.contains_key(k) ==> before[k].alive && before[k].inbound.len() == 0,
    ensures
        after_update(before) == before,
{
    assert forall|k: u32| #[trigger] before.contains_key(k) implies after_update(before)[k] == before[k] by {
        assert(before[k].inbound =~= Seq::<MsgIn>::empty());
        assert(before[k].outbound + replies(before[k].inbound) =~= before[k].outbound);
    }
    assert(after_update(before) =~= before);
}

/// The worker count for `t` threads, from its own arithmetic: with `c = t - 4` and
/// `a = c - c % 4` (c rounded down to a multiple of 4), the count is `a` itself whenever
/// `a` lies in 1..=16, 1 when `a` is 0, and 16 when `a` is above 16.
pub proof fn lemma_network_task_count_value(t: int)
    requires
        t >= 4,
    ensures
        ({
            let c = t - 4;
            let a = c - c % 4;
            &&& (1 <= a <= 16 ==> network_task_count_spec(t) == a)
            &&& (a == 0 ==> network_task_count_spec(t) == 1)
            &&& (a > 16 ==> network_task_count_spec(t) == 16)
        }),
{
    let c = t - 4;
    assert((c / 4) * 4 == c - c % 4) by (nonlinear_arith)
        requires
            c >= 0,
    ;
}

/// The frame-rate total is the plain sum of the samples: nothing for no samples, and one
/// more sample adds exactly its value.
pub proof fn lemma_fps_sum_adds(s: Seq<usize>, x: usize)
    ensures
        fps_sum(Seq::<usize>::empty()) == 0,
        fps_sum(s.push(x)) == fps_sum(s) + x,
{
    assert(s.push(x).drop_last() =~= s);
}

/// The frame rate averaged over `n` workers is the sum of the samples divided by `n`,
/// rounded down: `avg * n <= sum < (avg + 1) * n`.
pub proof fn lemma_average_fps_bounds(s: Seq<usize>, n: int, avg: int)
    requires
        n > 0,
        avg == fps_sum(s) / n,
    ensures
        avg * n <= fps_sum(s) < (avg + 1) * n,
{
    let total = fps_sum(s);
    assert(avg * n <= total < (avg + 1) * n) by (nonlinear_arith)
        requires
            n > 0,
            avg == total / n,
    ;
}

/// The number of hardware threads available to this process, from
/// `num_cpus::get`, which counts the logical cores (after the scheduler's affinity mask
/// and cgroup quotas) and returns at least 1. Nothing more is claimed of it: it depends
/// on the machine.
#[verifier::external_body]
fn available_threads() -> (n: usize)
    ensures
        n >= 1,
{
    num_cpus::get()
}

/// Whether `n` is what `network_task_count_checked` gives for `t` hardware threads.
pub open spec fn network_task_count_outcome(t: int, n: Option<usize>) -> bool {
    &&& (n is None <==> t < 4)
    &&& (n matches Some(c) ==> c == network_task_count_spec(t))
}

/// The number of network workers for `total_thread_cnt` hardware threads, by
/// `network_task_count`; `None` for fewer than four threads, where no count is defined.
pub fn network_task_count_checked(total_thread_cnt: usize) -> (n: Option<usize>)
    ensures
        network_task_count_outcome(total_thread_cnt as int, n),
{
    if total_thread_cnt < 4 {
        None
    } else {
        Some(network_task_count(total_thread_cnt))
    }
}

/// The number of network workers for this machine: `network_task_count_checked` of the
/// machine's hardware thread count, which is at least 1. Which count that is depends on
/// the machine.
pub fn network_task_count_for_machine() -> (n: Option<usize>)
    ensures
        exists|t: int| t >= 1 && #[trigger] network_task_count_outcome(t, n),
        n matches Some(c) ==> 1 <= c <= 16,
{
    let total = available_threads();
    let n = network_task_count_checked(total);
    proof {
        if total >= 4 {
            lemma_network_task_count_bounds(total as int);
        }
        assert(total >= 1 && network_task_count_outcome(total as int, n));
    }
    n
}

/// Whether the network worker `worker_index` of `worker_count` serves the session with
/// key `session_key`: the key, modulo the worker count taken as a `u32`, is the worker's
/// index taken as a `u32`.
pub fn is_session_of_worker(session_key: u32, worker_index: usize, worker_count: usize) -> (b: bool)
    requires
        worker_count as u32 != 0,
    ensures
        b == (session_key % (worker_count as u32) == worker_index as u32),
{
    session_key % (worker_count as u32) == worker_index as u32
}

/// The sum of a sequence of frame rates.
pub open spec fn fps_sum(s: Seq<usize>) -> int
    decreases s.len(),
{
    if s.len() == 0 {
        0
    } else {
        fps_sum(s.drop_last()) + s.last()
    }
}

/// The average frame rate of the network workers, from the last rate each reported,
/// rounded down. There must be at least one worker, and the sum must fit in a `usize`.
pub fn average_fps(fps_samples: &Vec<usize>, network_task_cnt: usize) -> (avg: usize)
    requires
        network_task_cnt > 0,
        fps_sum(fps_samples@) <= usize::MAX,
    ensures
        avg == fps_sum(fps_samples@) / (network_task_cnt as int),
{
    let mut total_fps: usize = 0;
    for i in 0..fps_samples.len()
        invariant
            total_fps == fps_sum(fps_samples@.take(i as int)),
            fps_sum(fps_samples@) <= usize::MAX,
    {
        assert(fps_samples@.take(i + 1).drop_last() =~= fps_samples@.take(i as int));
        proof {
            lemma_fps_sum_prefix(fps_samples@, i + 1);
        }
        total_fps = total_fps + fps_samples[i];
    }
    assert(fps_samples@.take(fps_samples.len() as int) =~= fps_samples@);
    total_fps / network_task_cnt
}

/// A prefix of a sequence of rates sums to no more than the whole.
proof fn lemma_fps_sum_prefix(s: Seq<usize>, n: int)
    requires
        0 <= n <= s.len(),
    ensures
        fps_sum(s.take(n)) <= fps_sum(s),
    decreases s.len() - n,
{
    if n < s.len() {
        lemma_fps_sum_prefix(s, n + 1);
        assert(s.take(n + 1).drop_last() =~= s.take(n));
    } else {
        assert(s.take(n) =~= s);
    }
}

/// How often a frame counter reports, in milliseconds.
pub const FPS_REPORT_INTERVAL_MS: u64 = 1000;

/// Counts the frames of a loop and reports their number once a reporting interval has
/// passed since the last report.
pub struct FrameRateCounter {
    pub frames: u64,
    pub window_start_ms: u64,
}

impl FrameRateCounter {
    /// A counter with no frames, its interval starting at `now_ms`.
    pub fn new(now_ms: u64) -> (c: FrameRateCounter)
        ensures
            c.frames == 0,
            c.window_start_ms == now_ms,
    {
        FrameRateCounter { frames: 0, window_start_ms: now_ms }
    }

    /// Counts one frame, finished at `now_ms`. Once `FPS_REPORT_INTERVAL_MS` or more have
    /// passed since the interval started (a clock reading before the start counts as no
    /// time passed), returns the number of frames of the interval, this one included,
    /// and starts a new interval at `now_ms` with no frames.
    pub fn record_frame(&mut self, now_ms: u64) -> (report: Option<u64>)
        requires
            old(self).frames < u64::MAX,
        ensures
            now_ms >= old(self).window_start_ms + FPS_REPORT_INTERVAL_MS ==> {
                &&& report == Some((old(self).frames + 1) as u64)
                &&& final(self).frames == 0
                &&& final(self).window_start_ms == now_ms
            },
            now_ms < old(self).window_start_ms + FPS_REPORT_INTERVAL_MS ==> {
                &&& report is None
                &&& final(self).frames == old(self).frames + 1
                &&& final(self).window_start_ms == old(self).window_start_ms
            },
    {
        self.frames = self.frames + 1;
        let elapsed = now_ms.saturating_sub(self.window_start_ms);
        if elapsed >= FPS_REPORT_INTERVAL_MS {
            let n = self.frames;
            self.frames = 0;
            self.window_start_ms = now_ms;
            Some(n)
        } else {
            None
        }
    }
}

/// The system clock's type, carried through unopened.
#[verifier::external_type_specification]
#[verifier::external_body]
pub struct ExSystemTime(std::time::SystemTime);

/// The current reading of the system clock, from `std::time::SystemTime::now`. Nothing
/// is claimed of it: it is the time.
#[verifier::external_body]
fn wall_clock_now() -> (t: std::time::SystemTime) {
    std::time::SystemTime::now()
}

/// How long after the Unix epoch the reading `t` lies, from
/// `SystemTime::duration_since(UNIX_EPOCH)`, which fails on a reading before the epoch;
/// `None` then. Nothing is claimed of the duration: the clock reading is opaque here.
#[verifier::external_body]
fn since_unix_epoch(t: &std::time::SystemTime) -> (d: Option<std::time::Duration>) {
    match t.duration_since(std::time::UNIX_EPOCH) {
        Ok(d) => Some(d),
        Err(_) => None,
    }
}

/// The whole milliseconds of `d`, from `Duration::as_millis`. Nothing is claimed of the
/// number: the duration is opaque here.
#[verifier::external_body]
fn duration_millis(d: &std::time::Duration) -> (ms: u128) {
    d.as_millis()
}

/// A millisecond count taken to 64 bits: its low 64 bits.
pub fn millis_as_u64(ms: u128) -> (r: u64)
    ensures
        r == ms as u64,
        ms <= u64::MAX ==> r == ms,
{
    ms as u64
}

/// The current time in whole milliseconds since the Unix epoch, taken to 64 bits; `None`
/// where the system clock reads before the epoch. What it returns otherwise is the time,
/// of which nothing is claimed.
pub fn clock_millis() -> (ms: Option<u64>) {
    let now = wall_clock_now();
    match since_unix_epoch(&now) {
        Some(d) => {
            let ms = duration_millis(&d);
            Some(millis_as_u64(ms))
        },
        None => None,
    }
}

impl GameServer {
    /// Stores `now_ms` as the time at which the server started serving; nothing else
    /// changes.
    pub fn set_start_time(&mut self, now_ms: u64)
        ensures
            final(self).timestamp_server_start == now_ms,
            final(self).timestamp_server_end == old(self).timestamp_server_end,
            final(self).sessions@ == old(self).sessions@,
            final(self).game_map == old(self).game_map,
            final(self).next_session_key == old(self).next_session_key,
            final(self).next_object_key == old(self).next_object_key,
    {
        self.timestamp_server_start = now_ms;
    }

    /// Stores `now_ms` as the time at which the server stopped; nothing else changes.
    pub fn set_end_time(&mut self, now_ms: u64)
        ensures
            final(self).timestamp_server_end == now_ms,
            final(self).timestamp_server_start == old(self).timestamp_server_start,
            final(self).sessions@ == old(self).sessions@,
            final(self).game_map == old(self).game_map,
            final(self).next_session_key == old(self).next_session_key,
            final(self).next_object_key == old(self).next_object_key,
    {
        self.timestamp_server_end = now_ms;
    }

    /// Reads the clock and stores the reading, in milliseconds since the Unix epoch,
    /// as the time at which the server started serving; returns the stored value. Where the
    /// clock reads before the epoch, stores nothing and returns `None`. Nothing else
    /// changes.
    pub fn record_start_time(&mut self) -> (stamp: Option<u64>)
        ensures
            match stamp {
                Some(t) => final(self).timestamp_server_start == t,
                None => final(self).timestamp_server_start == old(self).timestamp_server_start,
            },
            final(self).timestamp_server_end == old(self).timestamp_server_end,
            final(self).sessions@ == old(self).sessions@,
            final(self).game_map == old(self).game_map,
            final(self).next_session_key == old(self).next_session_key,
            final(self).next_object_key == old(self).next_object_key,
    {
        match clock_millis() {
            Some(ms) => {
                self.set_start_time(ms);
                Some(ms)
            },
            None => None,
        }
    }

    /// Reads the clock and stores the reading, in milliseconds since the Unix epoch,
    /// as the time at which the server stopped; returns the stored value. Where the
    /// clock reads before the epoch, stores nothing and returns `None`. Nothing else
    /// changes.
    pub fn record_end_time(&mut self) -> (stamp: Option<u64>)
        ensures
            match stamp {
                Some(t) => final(self).timestamp_server_end == t,
                None => final(self).timestamp_server_end == old(self).timestamp_server_end,
            },
            final(self).timestamp_server_start == old(self).timestamp_server_start,
            final(self).sessions@ == old(self).sessions@,
            final(self).game_map == old(self).game_map,
            final(self).next_session_key == old(self).next_session_key,
            final(self).next_object_key == old(self).next_object_key,
    {
        match clock_millis() {
            Some(ms) => {
                self.set_end_time(ms);
                Some(ms)
            },
            None => None,
        }
    }
}

impl GameServer {
    /// A server with no clients, an empty map, and its key counters at their first
    /// values.
    pub fn new() -> (server: GameServer)
        ensures
            server.timestamp_server_start == 0,
            server.timestamp_server_end == 0,
            server.sessions@ == Map::<u32, SessionView>::empty(),
            server.game_map.tiles@.len() == 0,
            server.next_session_key == FIRST_SESSION_KEY,
            server.next_object_key == FIRST_OBJECT_KEY,
    {
        GameServer {
            timestamp_server_start: 0,
            timestamp_server_end: 0,
            sessions: Sessions::new(),
            game_map: GameMap::new(),
            next_session_key: FIRST_SESSION_KEY,
            next_object_key: FIRST_OBJECT_KEY,
        }
    }

    /// Registers a newly connected client: it gets the next session key, which is
    /// returned, and a fresh session under it. The key counter advances by one, wrapping
    /// around at the end of its range.
    pub fn handle_connection(&mut self, address: Option<String>) -> (session_key: u32)
        ensures
            session_key == old(self).next_session_key,
            final(self).next_session_key == old(self).next_session_key.wrapping_add(1),
            final(self).sessions@ == old(self).sessions@.insert(
                session_key,
                new_session_view(session_key, address),
            ),
            final(self).next_object_key == old(self).next_object_key,
            final(self).timestamp_server_start == old(self).timestamp_server_start,
            final(self).timestamp_server_end == old(self).timestamp_server_end,
            final(self).game_map == old(self).game_map,
    {
        let session_key = self.next_session_key;
        self.next_session_key = session_key.wrapping_add(1);
        let session = Session::connected(session_key, address);
        self.sessions.insert(session_key, session);
        session_key
    }

    /// Drops the session of a client that is gone, with whatever its queues held; a key
    /// without a session changes nothing. Returns whether there was such a session.
    pub fn handle_disconnect(&mut self, session_key: u32) -> (found: bool)
        ensures
            found == old(self).sessions@.contains_key(session_key),
            final(self).sessions@ == old(self).sessions@.remove(session_key),
            final(self).next_session_key == old(self).next_session_key,
            final(self).next_object_key == old(self).next_object_key,
            final(self).timestamp_server_start == old(self).timestamp_server_start,
            final(self).timestamp_server_end == old(self).timestamp_server_end,
            final(self).game_map == old(self).game_map,
    {
        match self.sessions.remove(session_key) {
            Some(_) => true,
            None => false,
        }
    }

    /// Handles one message from the client with key `session_key`.
    pub fn process_message(&mut self, message: MsgIn, session_key: u32) -> (r: Result<(), String>)
        ensures
            handled(message, session_key, old(self).sessions@, r, final(self).sessions@),
            final(self).next_session_key == old(self).next_session_key,
            final(self).next_object_key == old(self).next_object_key,
            final(self).timestamp_server_start == old(self).timestamp_server_start,
            final(self).timestamp_server_end == old(self).timestamp_server_end,
            final(self).game_map == old(self).game_map,
    {
        handle_message(message, session_key, &mut self.sessions)
    }

    /// Step one of a logic frame: every message waiting in every session is handled,
    /// oldest first within a session; no session is added or dropped. Returns, for each
    /// session, the errors of its refused messages.
    pub fn process_messages(&mut self) -> (report: Vec<(u32, Vec<String>)>)
        ensures
            refusal_report(old(self).sessions@, false, report@),
            final(self).sessions@ == Map::new(
                |k: u32| old(self).sessions@.contains_key(k),
                |k: u32| inbox_handled(old(self).sessions@[k]),
            ),
            keeps_all_but_sessions(*old(self), *final(self)),
    {
        let ghost before = self.sessions@;
        let keys = self.sessions.keys();
        let ghost ks = keys@;
        assert(self.sessions@ =~= Map::new(
            |k: u32| before.contains_key(k),
            |k: u32| if ks.take(0).contains(k) { inbox_handled(before[k]) } else { before[k] },
        ));
        let mut report: Vec<(u32, Vec<String>)> = Vec::new();
        for i in 0..keys.len()
            invariant
                keys@ == ks,
                ks.no_duplicates(),
                forall|k: u32| before.contains_key(k) <==> ks.contains(k),
                self.sessions@ == Map::new(
                    |k: u32| before.contains_key(k),
                    |k: u32| if ks.take(i as int).contains(k) { inbox_handled(before[k]) } else { before[k] },
                ),
                keeps_all_but_sessions(*old(self), *self),
                forall|j: int|
                    0 <= j < report@.len() ==> {
                        let k = #[trigger] report@[j].0;
                        &&& before.contains_key(k)
                        &&& ks.take(i as int).contains(k)
                        &&& string_views(report@[j].1@) == refusals(before[k].inbound)
                    },
                forall|j1: int, j2: int| 0 <= j1 < j2 < report@.len() ==> #[trigger] report@[j1].0 != #[trigger] report@[j2].0,
                forall|k: u32|
                    ks.take(i as int).contains(k) && before.contains_key(k)
                        ==> exists|j: int| 0 <= j < report@.len() && #[trigger] report@[j].0 == k,
        {
            let k = keys[i];
            assert(ks.contains(k));
            proof {
                lemma_key_not_in_prefix(ks, i as int);
            }
            let ghost report_before = report@;
            let errors = process_inbox(&mut self.sessions, k);
            report.push((k, errors));
            assert(report@[report@.len() - 1].0 == k);
            assert(ks.take(i + 1) =~= ks.take(i as int).push(k));
            assert(self.sessions@ =~= Map::new(
                |k: u32| before.contains_key(k),
                |k: u32| if ks.take(i + 1).contains(k) { inbox_handled(before[k]) } else { before[k] },
            ));
            assert forall|x: u32|
                ks.take(i + 1).contains(x) && before.contains_key(x)
                implies exists|j: int| 0 <= j < report@.len() && #[trigger] report@[j].0 == x by {
                if x != k {
                    let j = choose|j: int| 0 <= j < report_before.len() && #[trigger] report_before[j].0 == x;
                    assert(report@[j] == report_before[j]);
                } else {
                    assert(report@[report@.len() - 1].0 == x);
                }
            }
        }
        assert(ks.take(ks.len() as int) =~= ks);
        assert(self.sessions@ =~= Map::new(|k: u32| before.contains_key(k), |k: u32| inbox_handled(before[k])));
        report
    }

    /// Step three of a logic frame: the sessions of clients that are gone are dropped;
    /// the others stay as they are.
    pub fn remove_disconnected(&mut self)
        ensures
            final(self).sessions@ == Map::new(
                |k: u32| old(self).sessions@.contains_key(k) && old(self).sessions@[k].alive,
                |k: u32| old(self).sessions@[k],
            ),
            keeps_all_but_sessions(*old(self), *final(self)),
    {
        let ghost before = self.sessions@;
        let keys = self.sessions.keys();
        let ghost ks = keys@;
        assert(self.sessions@ =~= Map::new(
            |k: u32| before.contains_key(k) && (!ks.take(0).contains(k) || before[k].alive),
            |k: u32| before[k],
        ));
        for i in 0..keys.len()
            invariant
                keys@ == ks,
                ks.no_duplicates(),
                forall|k: u32| before.contains_key(k) <==> ks.contains(k),
                self.sessions@ == Map::new(
                    |k: u32| before.contains_key(k) && (!ks.take(i as int).contains(k) || before[k].alive),
                    |k: u32| before[k],
                ),
                keeps_all_but_sessions(*old(self), *self),
        {
            let k = keys[i];
            assert(ks.contains(k));
            proof {
                lemma_key_not_in_prefix(ks, i as int);
            }
            let alive = match self.sessions.get(k) {
                Some(s) => s.get_alive(),
                None => true,
            };
            if !alive {
                let _ = self.handle_disconnect(k);
            }
            assert(ks.take(i + 1) =~= ks.take(i as int).push(k));
            assert(self.sessions@ =~= Map::new(
                |k: u32| before.contains_key(k) && (!ks.take(i + 1).contains(k) || before[k].alive),
                |k: u32| before[k],
            ));
        }
        assert(ks.take(ks.len() as int) =~= ks);
        assert(self.sessions@ =~= Map::new(
            |k: u32| before.contains_key(k) && before[k].alive,
            |k: u32| before[k],
        ));
    }

    /// One logic frame's work on the sessions: every message waiting in every session
    /// is handled, oldest first within a session (`process_messages`), and then the
    /// sessions of clients that are gone are dropped (`remove_disconnected`). The game
    /// objects take their step between the two.
    pub fn process_update(&mut self) -> (report: Vec<(u32, Vec<String>)>)
        ensures
            refusal_report(old(self).sessions@, false, report@),
            final(self).sessions@ == after_update(old(self).sessions@),
            keeps_all_but_sessions(*old(self), *final(self)),
    {
        let ghost before = self.sessions@;
        let report = self.process_messages();
        self.remove_disconnected();
        assert(self.sessions@ =~= after_update(before));
        report
    }
}

} // verus!
