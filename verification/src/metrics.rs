use std::collections::VecDeque;
use vstd::prelude::*;
use crate::pty::lemma_views_ring_push;
use crate::ring::{newest, push_bounded, ring_push_all};
use crate::text::{lines, lines_of, sat_add, sat_sub, views};

verus! {

broadcast use {vstd::string::group_string_axioms, vstd::std_specs::vecdeque::group_vec_dequeue_axioms};

/// How many log lines the collector keeps.
pub const LOG_RING_SIZE: usize = 24;

/// Where the incremental log reader stands: the chosen log file and the byte
/// offset up to which it has been read.
#[derive(Debug, Clone)]
struct LogCursor {
    path: Option<String>,
    offset: u64,
}

/// The state the metrics collector keeps between snapshots: the previous
/// CPU and network counters and the log window.
pub struct MetricsCollector {
    last_cpu_total: u64,
    last_cpu_idle: u64,
    last_net_rx: u64,
    last_net_tx: u64,
    log_ring: VecDeque<String>,
    log_cursor: LogCursor,
}

/// Appends every string of `items`, in order, to a window of `cap` strings.
fn push_all_bounded(ring: &mut VecDeque<String>, items: Vec<String>, cap: usize)
    ensures
        views(final(ring)@) == ring_push_all(views(old(ring)@), cap as nat, views(items@)),
{
    let ghost start = views(ring@);
    let mut i: usize = 0;
    assert(views(items@).take(0) =~= Seq::<Seq<char>>::empty());
    while i < items.len()
        invariant
            i <= items@.len(),
            views(ring@) == ring_push_all(start, cap as nat, views(items@).take(i as int)),
        decreases items@.len() - i,
    {
        let ghost q = ring@;
        push_bounded(ring, items[i].clone(), cap);
        proof {
            lemma_views_ring_push(q, cap as nat, items@[i as int]);
            assert(views(items@).take(i + 1).drop_last() =~= views(items@).take(i as int));
        }
        i = i + 1;
    }
    assert(views(items@).take(i as int) =~= views(items@));
}

impl MetricsCollector {
    /// The CPU counters of the previous snapshot: (total, idle).
    pub closed spec fn cpu_counters(&self) -> (u64, u64) {
        (self.last_cpu_total, self.last_cpu_idle)
    }

    /// The network byte counters of the previous snapshot: (rx, tx).
    pub closed spec fn net_counters(&self) -> (u64, u64) {
        (self.last_net_rx, self.last_net_tx)
    }

    /// The kept log lines, oldest first.
    pub closed spec fn logs(&self) -> Seq<Seq<char>> {
        views(self.log_ring@)
    }

    /// The chosen log file, if one was chosen.
    pub closed spec fn log_path(&self) -> Option<Seq<char>> {
        match self.log_cursor.path {
            Some(p) => Some(p@),
            None => None,
        }
    }

    /// The byte offset up to which the log file has been read.
    pub closed spec fn log_offset(&self) -> u64 {
        self.log_cursor.offset
    }

    /// Creates a collector with empty CPU history.
    pub fn new() -> (c: MetricsCollector)
        ensures
            c.cpu_counters() == (0u64, 0u64),
            c.net_counters() == (0u64, 0u64),
            c.logs().len() == 0,
            c.log_path() is None,
            c.log_offset() == 0,
    {
        let c = MetricsCollector {
            last_cpu_total: 0,
            last_cpu_idle: 0,
            last_net_rx: 0,
            last_net_tx: 0,
            log_ring: VecDeque::with_capacity(LOG_RING_SIZE),
            log_cursor: LogCursor { path: None, offset: 0 },
        };
        assert(c.logs() =~= Seq::<Seq<char>>::empty());
        c
    }

    /// Stores the CPU counters of this snapshot and returns those of the
    /// previous one, from which the CPU usage between the two is computed.
    pub fn swap_cpu_counters(&mut self, total: u64, idle: u64) -> (prev: (u64, u64))
        ensures
            prev == old(self).cpu_counters(),
            final(self).cpu_counters() == (total, idle),
            final(self).net_counters() == old(self).net_counters(),
            final(self).logs() == old(self).logs(),
            final(self).log_path() == old(self).log_path(),
            final(self).log_offset() == old(self).log_offset(),
    {
        let prev = (self.last_cpu_total, self.last_cpu_idle);
        self.last_cpu_total = total;
        self.last_cpu_idle = idle;
        prev
    }

    /// Stores the network counters of this snapshot and returns how many
    /// bytes were received and sent since the previous one (zero when a
    /// counter went backwards).
    pub fn net_deltas(&mut self, rx_now: u64, tx_now: u64) -> (d: (u64, u64))
        ensures
            d == (sat_sub(rx_now, old(self).net_counters().0), sat_sub(tx_now, old(self).net_counters().1)),
            final(self).net_counters() == (rx_now, tx_now),
            final(self).cpu_counters() == old(self).cpu_counters(),
            final(self).logs() == old(self).logs(),
            final(self).log_path() == old(self).log_path(),
            final(self).log_offset() == old(self).log_offset(),
    {
        let d = (rx_now.saturating_sub(self.last_net_rx), tx_now.saturating_sub(self.last_net_tx));
        self.last_net_rx = rx_now;
        self.last_net_tx = tx_now;
        d
    }

    /// The chosen log file, if one was chosen.
    pub fn log_source(&self) -> (p: Option<String>)
        ensures
            match p {
                Some(s) => self.log_path() == Some(s@),
                None => self.log_path() is None,
            },
    {
        match &self.log_cursor.path {
            Some(p) => Some(p.clone()),
            None => None,
        }
    }

    /// Chooses the log file to follow, unless one is chosen already.
    pub fn choose_log_source(&mut self, path: String)
        ensures
            final(self).log_path() == (if old(self).log_path() is None { Some(path@) } else { old(self).log_path() }),
            final(self).log_offset() == old(self).log_offset(),
            final(self).logs() == old(self).logs(),
            final(self).cpu_counters() == old(self).cpu_counters(),
            final(self).net_counters() == old(self).net_counters(),
    {
        if self.log_cursor.path.is_none() {
            self.log_cursor.path = Some(path);
        }
    }

    /// The offset to read the log file from, given its current length: a file
    /// shorter than what was read was rotated or truncated, and is read
    /// again from the start.
    pub fn log_read_offset(&mut self, file_len: u64) -> (offset: u64)
        ensures
            offset == (if file_len < old(self).log_offset() { 0 } else { old(self).log_offset() }),
            final(self).log_offset() == offset,
            final(self).log_path() == old(self).log_path(),
            final(self).logs() == old(self).logs(),
            final(self).cpu_counters() == old(self).cpu_counters(),
            final(self).net_counters() == old(self).net_counters(),
    {
        if file_len < self.log_cursor.offset {
            self.log_cursor.offset = 0;
        }
        self.log_cursor.offset
    }

    /// Takes in the text appended to the log since the last read: the offset
    /// moves past its bytes and its lines join the window of the newest
    /// `LOG_RING_SIZE` lines. Returns whether the window is still empty
    /// although the file is not, in which case the tail of the whole file
    /// should be loaded.
    pub fn record_log_delta(&mut self, delta: &str, file_len: u64) -> (bootstrap: bool)
        ensures
            final(self).log_offset() == sat_add(old(self).log_offset(), delta.len() as u64),
            final(self).logs() == ring_push_all(old(self).logs(), LOG_RING_SIZE as nat, lines_of(delta@)),
            bootstrap == (final(self).logs().len() == 0 && file_len > 0),
            final(self).log_path() == old(self).log_path(),
            final(self).cpu_counters() == old(self).cpu_counters(),
            final(self).net_counters() == old(self).net_counters(),
    {
        let n = delta.len() as u64;
        self.log_cursor.offset = self.log_cursor.offset.saturating_add(n);
        let ls = lines(delta);
        push_all_bounded(&mut self.log_ring, ls, LOG_RING_SIZE);
        self.log_ring.len() == 0 && file_len > 0
    }

    /// Fills the log window from the whole file when it has nothing yet: its
    /// last `LOG_RING_SIZE` lines are added.
    pub fn bootstrap_logs(&mut self, content: &str)
        ensures
            final(self).logs() == ring_push_all(old(self).logs(), LOG_RING_SIZE as nat,
                newest(lines_of(content@), LOG_RING_SIZE as nat)),
            final(self).log_path() == old(self).log_path(),
            final(self).log_offset() == old(self).log_offset(),
            final(self).cpu_counters() == old(self).cpu_counters(),
            final(self).net_counters() == old(self).net_counters(),
    {
        let ls = lines(content);
        let n = ls.len();
        let start = if n > LOG_RING_SIZE { n - LOG_RING_SIZE } else { 0 };
        let mut tail: Vec<String> = Vec::new();
        let mut i = start;
        while i < n
            invariant
                start <= i <= n,
                n == ls@.len(),
                views(tail@) == views(ls@).subrange(start as int, i as int),
            decreases n - i,
        {
            let x = ls[i].clone();
            let ghost before = tail@;
            tail.push(x);
            assert(views(tail@) =~= views(before).push(x@));
            assert(views(tail@) =~= views(ls@).subrange(start as int, i + 1));
            i = i + 1;
        }
        assert(views(tail@) =~= newest(lines_of(content@), LOG_RING_SIZE as nat));
        push_all_bounded(&mut self.log_ring, tail, LOG_RING_SIZE);
    }

    /// The kept log lines, oldest first.
    pub fn recent_logs(&self) -> (v: Vec<String>)
        ensures
            views(v@) == self.logs(),
    {
        let mut v: Vec<String> = Vec::new();
        let mut i: usize = 0;
        while i < self.log_ring.len()
            invariant
                i <= self.log_ring@.len(),
                views(v@) == views(self.log_ring@).take(i as int),
            decreases self.log_ring@.len() - i,
        {
            let x = self.log_ring[i].clone();
            let ghost before = v@;
            v.push(x);
            assert(views(v@) =~= views(before).push(x@));
            assert(views(v@) =~= views(self.log_ring@).take(i + 1));
            i = i + 1;
        }
        assert(views(self.log_ring@).take(i as int) =~= views(self.log_ring@));
        v
    }
}

} // verus!
