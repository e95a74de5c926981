use std::collections::VecDeque;
use vstd::prelude::*;
use crate::clock::unix_time_secs;
use crate::ring::{lemma_ring_keeps_newest, newest, push_bounded, ring_push, ring_push_all};
use crate::text::{append_padded, chars_of, decimal, decimal_string, digits_end, find_chars,
    find_from, leading_digits, pad_left, parse_u64, parse_u64_spec, push_char, skip_whitespace,
    trim_start};

verus! {

broadcast use {vstd::string::group_string_axioms, vstd::std_specs::vecdeque::group_vec_dequeue_axioms};

/// A single DNS stat sample polled from the Technitium API.
#[derive(Debug, Clone, Copy)]
pub struct DnsSample {
    pub total_queries: u64,
    pub blocked: u64,
    pub allowed: u64,
    pub cache_hits: u64,
    pub timestamp_secs: u64,
}

/// Shared DNS data structure updated by the polling thread.
#[derive(Debug, Clone)]
pub struct DnsState {
    pub samples: VecDeque<DnsSample>,
    pub last_error: Option<String>,
}

impl Default for DnsState {
    fn default() -> (s: DnsState)
        ensures
            s.samples@.len() == 0,
            s.last_error is None,
    {
        DnsState { samples: VecDeque::new(), last_error: None }
    }
}

/// How many samples the rolling window keeps.
pub const SAMPLE_WINDOW: usize = 60;

/// Why a stats response could not be read.
#[derive(Debug, Clone, Copy, PartialEq, Eq, Structural)]
pub enum DnsParseError {
    /// The response has no blank line between headers and body.
    NoBodySeparator,
}

// ---------------------------------------------------------------------------
// Panel rendering.
// ---------------------------------------------------------------------------

/// The largest value of `s`, zero when it is empty.
pub open spec fn seq_max(s: Seq<u64>) -> u64
    decreases s.len(),
{
    if s.len() == 0 {
        0
    } else if s.last() > seq_max(s.drop_last()) {
        s.last()
    } else {
        seq_max(s.drop_last())
    }
}

/// The bar glyph of height `k` eighths: a space, then U+2581 to U+2588.
pub open spec fn spark_bar(k: nat) -> char {
    if k == 0 {
        ' '
    } else {
        (0x2580 + k) as char
    }
}

/// One bar per value, scaled so that the largest value gets a full bar.
pub open spec fn sparkline(vals: Seq<u64>) -> Seq<char> {
    let m = if seq_max(vals) > 0 { seq_max(vals) as nat } else { 1 };
    Seq::new(vals.len(), |i: int| spark_bar(vstd::math::min(((vals[i] * 8) as nat / m) as int, 8) as nat))
}

/// The query totals of the samples, oldest first.
pub open spec fn totals(samples: Seq<DnsSample>) -> Seq<u64> {
    samples.map_values(|s: DnsSample| s.total_queries)
}

/// The alert level shown for a block percentage.
pub open spec fn alert_text(block_pct: nat) -> Seq<char> {
    if block_pct >= 70 {
        "ALERT high block rate"@
    } else if block_pct >= 40 {
        "WARN elevated block rate"@
    } else {
        "OK"@
    }
}

/// `part` as a whole percentage of `total`, zero when `total` is zero.
pub open spec fn percent_of(part: nat, total: nat) -> nat {
    if total > 0 { part * 100 / total } else { 0 }
}

/// The panel can be computed without overflow. A recorded error or an empty
/// window is rendered without arithmetic; otherwise every total must scale
/// to eighths, and the newest sample's counts to percentages.
pub open spec fn dns_panel_computable(state: DnsState) -> bool {
    state.last_error is None && state.samples@.len() > 0 ==> {
        &&& forall|i: int| 0 <= i < state.samples@.len() ==> (#[trigger] state.samples@[i]).total_queries <= u64::MAX / 8
        &&& state.samples@.last().total_queries > 0 ==> {
            &&& state.samples@.last().blocked <= u64::MAX / 100
            &&& state.samples@.last().cache_hits <= u64::MAX / 100
        }
    }
}

/// The text of the DNS panel for `state`, where `now` is the current Unix
/// time in seconds (`None` when the clock reads before the epoch).
pub open spec fn dns_panel_text(state: DnsState, now: Option<u64>) -> Seq<char> {
    match state.last_error {
        Some(e) => "DNS: offline\n"@ + e@,
        None => if state.samples@.len() == 0 {
            "DNS: no data yet"@
        } else {
            let last = state.samples@.last();
            let age: nat = match now {
                Some(n) => if n >= last.timestamp_secs { (n - last.timestamp_secs) as nat } else { 0 },
                None => 0,
            };
            let block_pct = percent_of(last.blocked as nat, last.total_queries as nat);
            let cache_pct = percent_of(last.cache_hits as nat, last.total_queries as nat);
            "total   "@ + pad_left(decimal(last.total_queries as nat), 7) + "  allowed "@
                + pad_left(decimal(last.allowed as nat), 7) + "\nblocked "@
                + pad_left(decimal(last.blocked as nat), 7) + "  ("@ + decimal(block_pct) + "%)  cache "@
                + decimal(cache_pct) + "%\nalert   "@ + alert_text(block_pct) + "\nage     "@
                + decimal(age) + "s\n\nqueries/min:\n"@ + sparkline(totals(state.samples@))
        },
    }
}

/// The largest value of a series gets a full bar, and no bar is higher.
pub proof fn lemma_sparkline_peak(vals: Seq<u64>, i: int)
    requires
        0 <= i < vals.len(),
        vals[i] == seq_max(vals),
        vals[i] > 0,
    ensures
        sparkline(vals)[i] == '\u{2588}',
{
    let m = vals[i] as nat;
    assert((m * 8) / m == 8) by (nonlinear_arith)
        requires m > 0;
    assert(((vals[i] * 8) as nat / m) == 8);
}

/// The allowed count of a parsed sample is what the total leaves after the
/// blocked queries, and never more than the total.
pub proof fn lemma_sample_counts(body: Seq<char>, ts: u64)
    ensures
        sample_of(body, ts).allowed <= sample_of(body, ts).total_queries,
        sample_of(body, ts).blocked <= sample_of(body, ts).total_queries ==>
            sample_of(body, ts).allowed + sample_of(body, ts).blocked == sample_of(body, ts).total_queries,
{
}

/// Every value of `vals` multiplied by `k`.
pub open spec fn scaled(vals: Seq<u64>, k: u64) -> Seq<u64> {
    Seq::new(vals.len(), |i: int| (vals[i] * k) as u64)
}

/// Scaling every value by the same factor scales the largest one too.
proof fn lemma_seq_max_scaled(vals: Seq<u64>, k: u64)
    requires
        k >= 1,
        forall|i: int| 0 <= i < vals.len() ==> #[trigger] vals[i] * k <= u64::MAX,
    ensures
        seq_max(scaled(vals, k)) == seq_max(vals) * k,
    decreases vals.len(),
{
    if vals.len() > 0 {
        let d = vals.drop_last();
        assert forall|i: int| 0 <= i < d.len() implies #[trigger] d[i] * k <= u64::MAX by {
            assert(d[i] == vals[i]);
        }
        lemma_seq_max_scaled(d, k);
        assert(scaled(vals, k).drop_last() =~= scaled(d, k));
        let w = scaled(vals, k);
        assert(vals.last() == vals[vals.len() - 1]);
        assert(w.last() == w[vals.len() - 1]);
        assert(w.last() == vals.last() * k);
        let a = vals.last() as int;
        let b = seq_max(d) as int;
        let kk = k as int;
        assert((a * kk > b * kk) == (a > b)) by (nonlinear_arith)
            requires kk >= 1;
        assert(seq_max(scaled(d, k)) == b * kk);
        if a > b {
            assert(seq_max(w) == a * kk);
            assert(seq_max(vals) == a);
            assert(seq_max(scaled(vals, k)) == seq_max(vals) * k);
        } else {
            assert(seq_max(w) == b * kk);
            assert(seq_max(vals) == b);
            assert(seq_max(scaled(vals, k)) == seq_max(vals) * k);
        }
    } else {
        assert(scaled(vals, k).len() == 0);
        assert(seq_max(scaled(vals, k)) == 0);
        assert(seq_max(vals) == 0);
    }
}

/// The sparkline looks the same when every value is multiplied by the same
/// positive factor (that keeps the values scalable to eighths).
pub proof fn lemma_sparkline_scale_invariant(vals: Seq<u64>, k: u64)
    requires
        k >= 1,
        forall|i: int| 0 <= i < vals.len() ==> #[trigger] vals[i] * k <= u64::MAX / 8,
    ensures
        sparkline(scaled(vals, k)) == sparkline(vals),
{
    lemma_seq_max_scaled(vals, k);
    let w = scaled(vals, k);
    let m = seq_max(vals);
    assert forall|i: int| 0 <= i < vals.len() implies #[trigger] sparkline(w)[i] == sparkline(vals)[i] by {
        let v = vals[i] as int;
        let kk = k as int;
        assert(w[i] == v * kk);
        if m == 0 {
            lemma_seq_max_bounds(vals, i);
            assert(v == 0);
            assert(v * kk == 0) by (nonlinear_arith) requires v == 0;
        } else {
            let mm = m as int;
            assert(seq_max(w) == mm * kk);
            assert(mm * kk > 0) by (nonlinear_arith) requires mm > 0, kk >= 1;
            vstd::arithmetic::div_mod::lemma_div_multiples_vanish_quotient(kk, v * 8, mm);
            assert(kk * (v * 8) == (v * kk) * 8) by (nonlinear_arith);
            assert(kk * mm == mm * kk) by (nonlinear_arith);
            assert((v * 8) / mm == ((v * kk) * 8) / (mm * kk));
        }
    }
    assert(sparkline(w) =~= sparkline(vals));
}

/// The largest of `vals`, zero when there is none.
fn max_value(vals: &Vec<u64>) -> (m: u64)
    ensures
        m == seq_max(vals@),
{
    let mut m: u64 = 0;
    let mut i: usize = 0;
    while i < vals.len()
        invariant
            i <= vals@.len(),
            m == seq_max(vals@.take(i as int)),
        decreases vals@.len() - i,
    {
        assert(vals@.take(i + 1).drop_last() =~= vals@.take(i as int));
        if vals[i] > m {
            m = vals[i];
        }
        i = i + 1;
    }
    assert(vals@.take(i as int) =~= vals@);
    m
}

/// The bar glyph of height `k` eighths.
fn bar_glyph(k: u64) -> (c: char)
    requires
        k <= 8,
    ensures
        c == spark_bar(k as nat),
{
    match k {
        0 => ' ',
        1 => '\u{2581}',
        2 => '\u{2582}',
        3 => '\u{2583}',
        4 => '\u{2584}',
        5 => '\u{2585}',
        6 => '\u{2586}',
        7 => '\u{2587}',
        _ => '\u{2588}',
    }
}

/// Values no larger than the largest one.
proof fn lemma_seq_max_bounds(s: Seq<u64>, i: int)
    requires
        0 <= i < s.len(),
    ensures
        s[i] <= seq_max(s),
    decreases s.len(),
{
    if i < s.len() - 1 {
        lemma_seq_max_bounds(s.drop_last(), i);
    }
}

/// Builds a fixed-width ASCII sparkline from a series of u64 values.
pub fn build_sparkline(vals: &Vec<u64>) -> (s: String)
    requires
        forall|i: int| 0 <= i < vals@.len() ==> #[trigger] vals@[i] <= u64::MAX / 8,
    ensures
        s@ == sparkline(vals@),
{
    let mut s = String::new();
    if vals.len() == 0 {
        assert(s@ =~= sparkline(vals@));
        return s;
    }
    let max = max_value(vals);
    let max = if max > 1 { max } else { 1 };
    let mut i: usize = 0;
    while i < vals.len()
        invariant
            i <= vals@.len(),
            forall|j: int| 0 <= j < vals@.len() ==> #[trigger] vals@[j] <= u64::MAX / 8,
            max as nat == (if seq_max(vals@) > 0 { seq_max(vals@) as nat } else { 1 }),
            s@ == sparkline(vals@).take(i as int),
        decreases vals@.len() - i,
    {
        let v = vals[i];
        let idx = v * 8 / max;
        let idx = if idx < 8 { idx } else { 8 };
        push_char(&mut s, bar_glyph(idx));
        assert(s@ =~= sparkline(vals@).take(i + 1));
        i = i + 1;
    }
    assert(sparkline(vals@).take(i as int) =~= sparkline(vals@));
    s
}

/// Whether the panel of `state` can be computed without overflow.
pub fn dns_panel_is_computable(state: &DnsState) -> (b: bool)
    ensures
        b == dns_panel_computable(*state),
{
    let n = state.samples.len();
    if state.last_error.is_some() || n == 0 {
        return true;
    }
    let mut i: usize = 0;
    while i < n
        invariant
            i <= n,
            n == state.samples@.len(),
            n > 0,
            state.last_error is None,
            forall|j: int| 0 <= j < i ==> (#[trigger] state.samples@[j]).total_queries <= u64::MAX / 8,
        decreases n - i,
    {
        if state.samples[i].total_queries > u64::MAX / 8 {
            return false;
        }
        i = i + 1;
    }
    let last = state.samples[n - 1];
    if last.total_queries > 0 && (last.blocked > u64::MAX / 100 || last.cache_hits > u64::MAX / 100) {
        return false;
    }
    true
}

/// Renders the DNS state into a human-readable panel string with an ASCII bar chart.
pub fn render_dns_panel(state: &DnsState) -> (s: String)
    requires
        dns_panel_computable(*state),
    ensures
        exists|now: Option<u64>| s@ == dns_panel_text(*state, now),
{
    let now = unix_time_secs();
    render_dns_panel_at(state, now)
}

/// Renders the DNS state as it reads at Unix time `now` (in seconds; `None`
/// when the clock reads before the epoch).
pub fn render_dns_panel_at(state: &DnsState, now: Option<u64>) -> (s: String)
    requires
        dns_panel_computable(*state),
    ensures
        s@ == dns_panel_text(*state, now),
{
    match &state.last_error {
        Some(err) => {
            let mut s = String::from_str("DNS: offline\n");
            s.append(err.as_str());
            return s;
        },
        None => {},
    }
    let n = state.samples.len();
    if n == 0 {
        return String::from_str("DNS: no data yet");
    }
    let last = state.samples[n - 1];
    let total = last.total_queries;
    let blocked = last.blocked;
    let allowed = last.allowed;
    let cache = last.cache_hits;
    let age_secs: u64 = match now {
        Some(t) => t.saturating_sub(last.timestamp_secs),
        None => 0,
    };
    let block_pct: u64 = if total > 0 { blocked * 100 / total } else { 0 };
    let cache_pct: u64 = if total > 0 { cache * 100 / total } else { 0 };
    let mut series: Vec<u64> = Vec::new();
    let mut i: usize = 0;
    while i < n
        invariant
            i <= n,
            n == state.samples@.len(),
            series@ == totals(state.samples@).take(i as int),
        decreases n - i,
    {
        series.push(state.samples[i].total_queries);
        assert(series@ =~= totals(state.samples@).take(i + 1));
        i = i + 1;
    }
    assert(series@ =~= totals(state.samples@));
    assert forall|j: int| 0 <= j < series@.len() implies #[trigger] series@[j] <= u64::MAX / 8 by {
        assert(series@[j] == state.samples@[j].total_queries);
    }
    let sparkline_text = build_sparkline(&series);
    let mut s = String::from_str("total   ");
    append_padded(&mut s, total, 7);
    s.append("  allowed ");
    append_padded(&mut s, allowed, 7);
    s.append("\nblocked ");
    append_padded(&mut s, blocked, 7);
    s.append("  (");
    s.append(decimal_string(block_pct).as_str());
    s.append("%)  cache ");
    s.append(decimal_string(cache_pct).as_str());
    s.append("%\nalert   ");
    if block_pct >= 70 {
        s.append("ALERT high block rate");
    } else if block_pct >= 40 {
        s.append("WARN elevated block rate");
    } else {
        s.append("OK");
    }
    s.append("\nage     ");
    s.append(decimal_string(age_secs).as_str());
    s.append("s\n\nqueries/min:\n");
    s.append(sparkline_text.as_str());
    s
}

/// The query total of the newest sample, if there is one.
pub fn latest_total_queries(state: &DnsState) -> (r: Option<u64>)
    ensures
        state.samples@.len() == 0 ==> r is None,
        state.samples@.len() > 0 ==> r == Some(state.samples@.last().total_queries),
{
    let n = state.samples.len();
    if n == 0 {
        None
    } else {
        Some(state.samples[n - 1].total_queries)
    }
}

impl DnsState {
    /// Records the outcome of one poll: a sample joins the rolling window of
    /// `SAMPLE_WINDOW` samples and clears the error; a failure records its
    /// message and keeps the samples.
    pub fn apply_poll_result(&mut self, result: Result<DnsSample, String>)
        ensures
            match result {
                Ok(sample) => {
                    &&& final(self).samples@ == ring_push(old(self).samples@, SAMPLE_WINDOW as nat, sample)
                    &&& final(self).last_error is None
                },
                Err(e) => {
                    &&& final(self).samples@ == old(self).samples@
                    &&& final(self).last_error == Some(e)
                },
            },
    {
        match result {
            Ok(sample) => {
                push_bounded(&mut self.samples, sample, SAMPLE_WINDOW);
                self.last_error = None;
            },
            Err(e) => {
                self.last_error = Some(e);
            },
        }
    }
}

/// The samples that a series of poll outcomes delivers, in order.
pub open spec fn polled_samples(polls: Seq<Result<DnsSample, String>>) -> Seq<DnsSample>
    decreases polls.len(),
{
    if polls.len() == 0 {
        seq![]
    } else {
        match polls.last() {
            Ok(x) => polled_samples(polls.drop_last()).push(x),
            Err(_) => polled_samples(polls.drop_last()),
        }
    }
}

/// The sample window after the outcomes `polls` are recorded, one by one,
/// onto a window holding `samples`.
pub open spec fn samples_after_polls(samples: Seq<DnsSample>, polls: Seq<Result<DnsSample, String>>) -> Seq<DnsSample> {
    ring_push_all(samples, SAMPLE_WINDOW as nat, polled_samples(polls))
}

/// The error shown after the outcomes `polls` are recorded onto a state
/// showing `err`: that of the last outcome.
pub open spec fn error_after_polls(err: Option<String>, polls: Seq<Result<DnsSample, String>>) -> Option<String> {
    if polls.len() == 0 {
        err
    } else {
        match polls.last() {
            Ok(_) => None,
            Err(e) => Some(e),
        }
    }
}

/// Recording poll outcomes one by one, as `apply_poll_result` does, keeps
/// the newest `SAMPLE_WINDOW` samples of all that were delivered, oldest
/// first, so the window never holds more than `SAMPLE_WINDOW` samples; each
/// further outcome changes the window and the error as `apply_poll_result`
/// states.
pub proof fn lemma_dns_window_over_polls(
    samples: Seq<DnsSample>,
    err: Option<String>,
    polls: Seq<Result<DnsSample, String>>,
    r: Result<DnsSample, String>,
)
    requires
        samples.len() <= SAMPLE_WINDOW,
    ensures
        samples_after_polls(samples, polls) == newest(samples + polled_samples(polls), SAMPLE_WINDOW as nat),
        samples_after_polls(samples, polls).len() <= SAMPLE_WINDOW,
        samples_after_polls(samples, polls.push(r)) == (match r {
            Ok(x) => ring_push(samples_after_polls(samples, polls), SAMPLE_WINDOW as nat, x),
            Err(_) => samples_after_polls(samples, polls),
        }),
        error_after_polls(err, polls.push(r)) == (match r {
            Ok(_) => None::<String>,
            Err(e) => Some(e),
        }),
{
    lemma_ring_keeps_newest(samples, SAMPLE_WINDOW as nat, polled_samples(polls));
    assert(polls.push(r).drop_last() =~= polls);
    assert(polls.push(r).last() == r);
    match r {
        Ok(x) => {
            let p = polled_samples(polls.push(r));
            assert(p == polled_samples(polls).push(x));
            assert(p.drop_last() =~= polled_samples(polls));
        },
        Err(_) => {},
    }
}

// ---------------------------------------------------------------------------
// Stats response parsing.
// ---------------------------------------------------------------------------

/// The body of an HTTP response: what follows the first blank line, written
/// `\r\n\r\n` or else `\n\n`.
pub open spec fn response_body(raw: Seq<char>) -> Option<Seq<char>> {
    match find_from(raw, "\r\n\r\n"@, 0) {
        Some(i) => Some(raw.skip(i + 4int)),
        None => match find_from(raw, "\n\n"@, 0) {
            Some(i) => Some(raw.skip(i + 2int)),
            None => None,
        },
    }
}

/// The number that follows the first `"key":` in `body` (after optional
/// whitespace), zero when the key is absent or no number fits in 64 bits.
pub open spec fn stat_field(body: Seq<char>, key: Seq<char>) -> u64 {
    let pat = "\""@ + key + "\":"@;
    match find_from(body, pat, 0) {
        None => 0,
        Some(i) => match parse_u64_spec(leading_digits(trim_start(body.skip((i + pat.len()) as int)))) {
            Some(v) => v,
            None => 0,
        },
    }
}

/// The sample a stats body describes, stamped with `ts`.
pub open spec fn sample_of(body: Seq<char>, ts: u64) -> DnsSample {
    let total = stat_field(body, "totalQueries"@);
    let blocked = stat_field(body, "totalBlocked"@);
    DnsSample {
        total_queries: total,
        blocked: blocked,
        allowed: if total >= blocked { (total - blocked) as u64 } else { 0 },
        cache_hits: stat_field(body, "totalCachedHits"@),
        timestamp_secs: ts,
    }
}

/// The number that follows the first `"key":` in `body`.
fn extract_u64(body: &Vec<char>, key: &str) -> (r: u64)
    ensures
        r == stat_field(body@, key@),
{
    let mut pat: Vec<char> = chars_of("\"");
    let kc = chars_of(key);
    let mut j: usize = 0;
    while j < kc.len()
        invariant
            j <= kc@.len(),
            pat@ == "\""@ + kc@.take(j as int),
        decreases kc@.len() - j,
    {
        pat.push(kc[j]);
        assert(pat@ =~= "\""@ + kc@.take(j + 1));
        j = j + 1;
    }
    let tail = chars_of("\":");
    let mut t: usize = 0;
    let ghost mid = pat@;
    while t < tail.len()
        invariant
            t <= tail@.len(),
            pat@ == mid + tail@.take(t as int),
        decreases tail@.len() - t,
    {
        pat.push(tail[t]);
        assert(pat@ =~= mid + tail@.take(t + 1));
        t = t + 1;
    }
    assert(kc@.take(j as int) =~= key@);
    assert(tail@.take(t as int) =~= "\":"@);
    assert(pat@ =~= "\""@ + key@ + "\":"@);
    match find_chars(body, &pat, 0) {
        None => 0,
        Some(i) => {
            let start = i + pat.len();
            assert(body@.subrange(start as int, body@.len() as int) =~= body@.skip(start as int));
            let s = skip_whitespace(body, start, body.len());
            let e = digits_end(body, s, body.len());
            let ghost digits = leading_digits(trim_start(body@.skip(start as int)));
            assert(body@.subrange(s as int, e as int) == digits);
            let r = parse_u64(body, s, e);
            assert(r == parse_u64_spec(digits));
            match r {
                Some(v) => v,
                None => 0,
            }
        },
    }
}

/// Extracts stat fields from a minimal JSON response body; the sample is
/// stamped with the current Unix time (zero when the clock reads before the
/// epoch).
pub fn parse_stats_response(raw: &str) -> (r: Result<DnsSample, DnsParseError>)
    ensures
        match response_body(raw@) {
            None => r == Err::<DnsSample, DnsParseError>(DnsParseError::NoBodySeparator),
            Some(body) => r matches Ok(s) && s == sample_of(body, s.timestamp_secs),
        },
{
    let ts = match unix_time_secs() {
        Some(t) => t,
        None => 0,
    };
    parse_stats_response_at(raw, ts)
}

/// Extracts stat fields from a minimal JSON response body, stamping the
/// sample with `ts`.
pub fn parse_stats_response_at(raw: &str, ts: u64) -> (r: Result<DnsSample, DnsParseError>)
    ensures
        match response_body(raw@) {
            None => r == Err::<DnsSample, DnsParseError>(DnsParseError::NoBodySeparator),
            Some(body) => r == Ok::<DnsSample, DnsParseError>(sample_of(body, ts)),
        },
{
    proof {
        reveal_strlit("\r\n\r\n");
        reveal_strlit("\n\n");
    }
    let v = chars_of(raw);
    let crlf = chars_of("\r\n\r\n");
    let lf = chars_of("\n\n");
    let start = match find_chars(&v, &crlf, 0) {
        Some(i) => i + 4,
        None => match find_chars(&v, &lf, 0) {
            Some(i) => i + 2,
            None => {
                return Err(DnsParseError::NoBodySeparator);
            },
        },
    };
    let mut body: Vec<char> = Vec::new();
    let mut k = start;
    while k < v.len()
        invariant
            start <= k <= v@.len(),
            body@ == v@.subrange(start as int, k as int),
        decreases v@.len() - k,
    {
        body.push(v[k]);
        assert(body@ =~= v@.subrange(start as int, k + 1));
        k = k + 1;
    }
    assert(body@ =~= v@.skip(start as int));
    let total = extract_u64(&body, "totalQueries");
    let blocked = extract_u64(&body, "totalBlocked");
    let cache = extract_u64(&body, "totalCachedHits");
    let allowed = total.saturating_sub(blocked);
    Ok(DnsSample {
        total_queries: total,
        blocked,
        allowed,
        cache_hits: cache,
        timestamp_secs: ts,
    })
}


// ---------------------------------------------------------------------------
// The stats request.
// ---------------------------------------------------------------------------

/// The `host:port` address of the Technitium API.
pub fn stats_address(host: &str, port: u16) -> (a: String)
    ensures
        a@ == host@ + ":"@ + decimal(port as nat),
{
    let mut a = String::from_str(host);
    a.append(":");
    a.append(decimal_string(port as u64).as_str());
    a
}

/// The HTTP/1.0 request for the last minute of dashboard statistics.
pub fn stats_request(host: &str, token: &str) -> (r: String)
    ensures
        r@ == "GET /api/dashboard/stats/get?token="@ + token@ + "&type=LastMinute HTTP/1.0\r\nHost: "@
            + host@ + "\r\nConnection: close\r\n\r\n"@,
{
    let mut r = String::from_str("GET /api/dashboard/stats/get?token=");
    r.append(token);
    r.append("&type=LastMinute HTTP/1.0\r\nHost: ");
    r.append(host);
    r.append("\r\nConnection: close\r\n\r\n");
    r
}

} // verus!
