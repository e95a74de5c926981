//! Parsers for the procfs files that the collectors read.
use vstd::prelude::*;
use crate::text::{chars_of, find_chars, find_from, first_token_u64, first_token_u64_at, lines,
    lines_of, parse_u64, parse_u64_spec, sat_add, sat_sub, starts_with, starts_with_at,
    token_bounds, tokens_of, trim, trim_bounds, views};

verus! {

broadcast use vstd::string::group_string_axioms;

/// Word `k` of `t` read as a number, or zero when it is missing or not a number.
pub open spec fn word_or_zero(t: Seq<Seq<char>>, k: int) -> u64 {
    if 0 <= k < t.len() {
        match parse_u64_spec(t[k]) {
            Some(v) => v,
            None => 0,
        }
    } else {
        0
    }
}

/// Word `k` of `t` read as a number.
pub open spec fn word_u64(t: Seq<Seq<char>>, k: int) -> Option<u64> {
    if 0 <= k < t.len() {
        parse_u64_spec(t[k])
    } else {
        None
    }
}

/// The total and idle CPU tick counters of the first line of `/proc/stat`:
/// the label, then user, nice, system and idle (all required), then the
/// optional iowait, irq, softirq and steal (zero when missing or unreadable).
/// Idle time includes iowait; the total adds everything, saturating.
pub open spec fn cpu_counters(content: Seq<char>) -> Option<(u64, u64)> {
    let ls = lines_of(content);
    if ls.len() == 0 {
        None
    } else {
        let t = tokens_of(ls[0]);
        if t.len() < 5 {
            None
        } else {
            match (word_u64(t, 1), word_u64(t, 2), word_u64(t, 3), word_u64(t, 4)) {
                (Some(user), Some(nice), Some(system), Some(idle)) => {
                    let idle_all = sat_add(idle, word_or_zero(t, 5));
                    let total = sat_add(sat_add(sat_add(sat_add(sat_add(sat_add(user, nice), system),
                        idle_all), word_or_zero(t, 6)), word_or_zero(t, 7)), word_or_zero(t, 8));
                    Some((total, idle_all))
                },
                _ => None,
            }
        }
    }
}

/// Word `k` of the words at `toks` in `v`, read as a number.
fn word_at(v: &Vec<char>, toks: &Vec<(usize, usize)>, k: usize) -> (r: Option<u64>)
    requires
        forall|j: int| 0 <= j < toks@.len() ==> (#[trigger] toks@[j]).0 <= toks@[j].1 <= v@.len(),
    ensures
        r == word_u64(Seq::new(toks@.len(), |j: int| v@.subrange(toks@[j].0 as int, toks@[j].1 as int)), k as int),
{
    if k < toks.len() {
        parse_u64(v, toks[k].0, toks[k].1)
    } else {
        None
    }
}

/// Parses the first cpu line in `/proc/stat` to derive total and idle counters.
pub fn parse_cpu_counters(content: &str) -> (r: Option<(u64, u64)>)
    ensures
        r == cpu_counters(content@),
{
    let ls = lines(content);
    if ls.len() == 0 {
        return None;
    }
    let v = chars_of(ls[0].as_str());
    let toks = token_bounds(&v, 0, v.len());
    let ghost t = tokens_of(v@.subrange(0, v@.len() as int));
    assert(v@.subrange(0, v@.len() as int) =~= v@);
    assert(Seq::new(toks@.len(), |j: int| v@.subrange(toks@[j].0 as int, toks@[j].1 as int)) =~= t);
    if toks.len() < 5 {
        return None;
    }
    let user = match word_at(&v, &toks, 1) { Some(x) => x, None => return None };
    let nice = match word_at(&v, &toks, 2) { Some(x) => x, None => return None };
    let system = match word_at(&v, &toks, 3) { Some(x) => x, None => return None };
    let idle = match word_at(&v, &toks, 4) { Some(x) => x, None => return None };
    let iowait = match word_at(&v, &toks, 5) { Some(x) => x, None => 0 };
    let irq = match word_at(&v, &toks, 6) { Some(x) => x, None => 0 };
    let softirq = match word_at(&v, &toks, 7) { Some(x) => x, None => 0 };
    let steal = match word_at(&v, &toks, 8) { Some(x) => x, None => 0 };
    let idle_all = idle.saturating_add(iowait);
    let total = user
        .saturating_add(nice)
        .saturating_add(system)
        .saturating_add(idle_all)
        .saturating_add(irq)
        .saturating_add(softirq)
        .saturating_add(steal);
    Some((total, idle_all))
}


/// The value of the last line of `ls` that begins with `prefix`: its first
/// word read as a number; `None` when no line begins with `prefix`.
pub open spec fn last_prefixed(ls: Seq<Seq<char>>, prefix: Seq<char>) -> Option<Option<u64>>
    decreases ls.len(),
{
    if ls.len() == 0 {
        None
    } else if starts_with(ls.last(), prefix) {
        Some(first_token_u64(ls.last().skip(prefix.len() as int)))
    } else {
        last_prefixed(ls.drop_last(), prefix)
    }
}

/// Used and total memory in MB from `/proc/meminfo`: the last `MemTotal:`
/// line must hold a number; a missing or unreadable `MemAvailable:` counts
/// as zero.
pub open spec fn meminfo_mb(content: Seq<char>) -> Option<(u64, u64)> {
    let ls = lines_of(content);
    match last_prefixed(ls, "MemTotal:"@) {
        Some(Some(total_kb)) => {
            let total = (total_kb / 1024) as u64;
            let avail = match last_prefixed(ls, "MemAvailable:"@) {
                Some(Some(a)) => (a / 1024) as u64,
                _ => 0,
            };
            Some((sat_sub(total, avail), total))
        },
        _ => None,
    }
}

/// Reads memory totals from `/proc/meminfo` content and returns values in MB.
pub fn parse_meminfo_mb(content: &str) -> (r: Option<(u64, u64)>)
    ensures
        r == meminfo_mb(content@),
{
    let ls = lines(content);
    let ghost lv = views(ls@);
    let total_prefix = chars_of("MemTotal:");
    let avail_prefix = chars_of("MemAvailable:");
    let mut total_kb: Option<Option<u64>> = None;
    let mut avail_kb: Option<Option<u64>> = None;
    let mut i: usize = 0;
    while i < ls.len()
        invariant
            i <= ls@.len(),
            lv == views(ls@),
            total_prefix@ == "MemTotal:"@,
            avail_prefix@ == "MemAvailable:"@,
            total_kb == last_prefixed(lv.take(i as int), "MemTotal:"@),
            avail_kb == last_prefixed(lv.take(i as int), "MemAvailable:"@),
        decreases ls@.len() - i,
    {
        let v = chars_of(ls[i].as_str());
        assert(lv.take(i + 1).drop_last() =~= lv.take(i as int));
        assert(v@.subrange(0, v@.len() as int) =~= v@);
        if starts_with_at(&v, 0, v.len(), &total_prefix) {
            let tp = total_prefix.len();
            assert(v@.subrange(tp as int, v@.len() as int) =~= v@.skip(tp as int));
            total_kb = Some(first_token_u64_at(&v, tp, v.len()));
        }
        if starts_with_at(&v, 0, v.len(), &avail_prefix) {
            let ap = avail_prefix.len();
            assert(v@.subrange(ap as int, v@.len() as int) =~= v@.skip(ap as int));
            avail_kb = Some(first_token_u64_at(&v, ap, v.len()));
        }
        i = i + 1;
    }
    assert(lv.take(i as int) =~= lines_of(content@));
    let total = match total_kb {
        Some(Some(t)) => t / 1024,
        _ => return None,
    };
    let available = match avail_kb {
        Some(Some(a)) => a / 1024,
        _ => 0,
    };
    Some((total.saturating_sub(available), total))
}

/// The numbers among the words of `t`, in order; other words are skipped.
pub open spec fn numbers(t: Seq<Seq<char>>) -> Seq<u64>
    decreases t.len(),
{
    if t.len() == 0 {
        seq![]
    } else {
        match parse_u64_spec(t.last()) {
            Some(n) => numbers(t.drop_last()).push(n),
            None => numbers(t.drop_last()),
        }
    }
}

/// The received and sent byte totals over the interface lines `ls` of
/// `/proc/net/dev`: every line needs a `:`; the loopback interface is
/// skipped, and so is a line with fewer than nine numbers; otherwise the
/// first and ninth numbers are added, saturating.
pub open spec fn net_totals(ls: Seq<Seq<char>>) -> Option<(u64, u64)>
    decreases ls.len(),
{
    if ls.len() == 0 {
        Some((0, 0))
    } else {
        match net_totals(ls.drop_last()) {
            None => None,
            Some((rx, tx)) => {
                let l = trim(ls.last());
                match find_from(l, ":"@, 0) {
                    None => None,
                    Some(c) => if trim(l.take(c as int)) == "lo"@ {
                        Some((rx, tx))
                    } else {
                        let f = numbers(tokens_of(l.skip(c + 1int)));
                        if f.len() >= 9 {
                            Some((sat_add(rx, f[0]), sat_add(tx, f[8])))
                        } else {
                            Some((rx, tx))
                        }
                    },
                }
            },
        }
    }
}

/// Once an interface line without `:` is met, no totals come out.
pub proof fn lemma_net_none_extends(ls: Seq<Seq<char>>, k: nat)
    requires
        k <= ls.len(),
        net_totals(ls.take(k as int)) is None,
    ensures
        net_totals(ls) is None,
    decreases ls.len(),
{
    if ls.len() == k {
        assert(ls.take(k as int) =~= ls);
    } else {
        assert(ls.drop_last().take(k as int) =~= ls.take(k as int));
        lemma_net_none_extends(ls.drop_last(), k);
    }
}

/// The byte totals of `/proc/net/dev`, whose first two lines are headers.
pub open spec fn net_bytes(content: Seq<char>) -> Option<(u64, u64)> {
    let ls = lines_of(content);
    if ls.len() <= 2 {
        Some((0, 0))
    } else {
        net_totals(ls.skip(2))
    }
}

/// The numbers among the words at `toks` in `v`.
fn numbers_at(v: &Vec<char>, toks: &Vec<(usize, usize)>) -> (r: Vec<u64>)
    requires
        forall|j: int| 0 <= j < toks@.len() ==> (#[trigger] toks@[j]).0 <= toks@[j].1 <= v@.len(),
    ensures
        r@ == numbers(Seq::new(toks@.len(), |j: int| v@.subrange(toks@[j].0 as int, toks@[j].1 as int))),
{
    let ghost t = Seq::new(toks@.len(), |j: int| v@.subrange(toks@[j].0 as int, toks@[j].1 as int));
    let mut out: Vec<u64> = Vec::new();
    let mut i: usize = 0;
    while i < toks.len()
        invariant
            i <= toks@.len(),
            forall|j: int| 0 <= j < toks@.len() ==> (#[trigger] toks@[j]).0 <= toks@[j].1 <= v@.len(),
            t == Seq::new(toks@.len(), |j: int| v@.subrange(toks@[j].0 as int, toks@[j].1 as int)),
            out@ == numbers(t.take(i as int)),
        decreases toks@.len() - i,
    {
        assert(t.take(i + 1).drop_last() =~= t.take(i as int));
        assert(t.take(i + 1).last() == t[i as int]);
        match parse_u64(v, toks[i].0, toks[i].1) {
            Some(n) => out.push(n),
            None => {},
        }
        i = i + 1;
    }
    assert(t.take(i as int) =~= t);
    out
}

/// Reads aggregate RX and TX byte counters from `/proc/net/dev` content for
/// all non-loopback interfaces.
pub fn parse_net_bytes(content: &str) -> (r: Option<(u64, u64)>)
    ensures
        r == net_bytes(content@),
{
    let ls = lines(content);
    let ghost lv = views(ls@);
    if ls.len() <= 2 {
        return Some((0, 0));
    }
    let ghost body = lv.skip(2);
    proof {
        reveal_strlit(":");
    }
    let colon = chars_of(":");
    let lo = chars_of("lo");
    let mut rx: u64 = 0;
    let mut tx: u64 = 0;
    let mut i: usize = 2;
    assert(body.take(0) =~= Seq::<Seq<char>>::empty());
    while i < ls.len()
        invariant
            2 <= i <= ls@.len(),
            lv == views(ls@),
            lv == lines_of(content@),
            body == lv.skip(2),
            colon@ == ":"@,
            colon@.len() == 1,
            lo@ == "lo"@,
            net_totals(body.take(i - 2)) == Some((rx, tx)),
        decreases ls@.len() - i,
    {
        let ghost prev = body.take(i - 2);
        assert(body.take(i - 1).drop_last() =~= prev);
        assert(body.take(i - 1).last() == lv[i as int]);
        let v = chars_of(ls[i].as_str());
        assert(lv[i as int] == v@);
        let (s, e) = trim_bounds(&v, 0, v.len());
        assert(v@.subrange(0, v@.len() as int) =~= v@);
        let ghost l = v@.subrange(s as int, e as int);
        let mut line: Vec<char> = Vec::new();
        let mut k = s;
        while k < e
            invariant
                s <= k <= e <= v@.len(),
                line@ == v@.subrange(s as int, k as int),
            decreases e - k,
        {
            line.push(v[k]);
            assert(line@ =~= v@.subrange(s as int, k + 1));
            k = k + 1;
        }
        assert(line@ == l);
        let c = match find_chars(&line, &colon, 0) {
            Some(c) => c,
            None => {
                proof {
                    assert(net_totals(body.take(i - 1)) is None);
                    lemma_net_none_extends(body, (i - 1) as nat);
                    assert(lines_of(content@).skip(2) == body);
                }
                return None;
            },
        };
        let (is, ie) = trim_bounds(&line, 0, c);
        let iface_is_lo = ie - is == 2 && line[is] == 'l' && line[is + 1] == 'o';
        proof {
            reveal_strlit("lo");
            assert(line@.take(c as int) =~= line@.subrange(0, c as int));
            let iface = line@.subrange(is as int, ie as int);
            if iface_is_lo {
                assert(iface =~= "lo"@);
            } else {
                assert(iface != "lo"@) by {
                    if iface == "lo"@ {
                        assert(iface.len() == 2);
                        assert(ie - is == 2);
                        assert(iface[0] == line@[is as int]);
                        assert(iface[1] == line@[is + 1]);
                        assert(iface[0] == 'l' && iface[1] == 'o');
                    }
                }
            }
        }
        if !iface_is_lo {
            let toks = token_bounds(&line, c + 1, line.len());
            assert(line@.subrange((c + 1) as int, line@.len() as int) =~= line@.skip(c + 1));
            let f = numbers_at(&line, &toks);
            assert(Seq::new(toks@.len(), |j: int| line@.subrange(toks@[j].0 as int, toks@[j].1 as int))
                =~= tokens_of(line@.skip(c + 1)));
            if f.len() >= 9 {
                rx = rx.saturating_add(f[0]);
                tx = tx.saturating_add(f[8]);
            }
        }
        i = i + 1;
    }
    assert(body.take(i - 2) =~= body);
    Some((rx, tx))
}

/// The last position of `c` in `s`.
pub open spec fn last_index_of(s: Seq<char>, c: char) -> Option<nat>
    decreases s.len(),
{
    if s.len() == 0 {
        None
    } else if s.last() == c {
        Some((s.len() - 1) as nat)
    } else {
        last_index_of(s.drop_last(), c)
    }
}

/// The user plus system CPU ticks of the process from `/proc/self/stat`:
/// the fields after the command name, which ends at the last `)`, skipping
/// the one character after it (which must be a single byte); there, user
/// and system time are words 11 and 12. Their sum saturates.
pub open spec fn process_cpu_ticks(stat: Seq<char>) -> Option<u64> {
    match last_index_of(stat, ')') {
        None => None,
        Some(p) => if p + 1 >= stat.len() || (stat[p + 1int] as u32) >= 128 {
            None
        } else {
            let t = tokens_of(stat.skip(p + 2int));
            match (word_u64(t, 11), word_u64(t, 12)) {
                (Some(u), Some(s)) => Some(sat_add(u, s)),
                _ => None,
            }
        },
    }
}

/// Parses process CPU ticks from `/proc/self/stat` content (utime + stime).
pub fn parse_process_cpu_ticks(stat: &str) -> (r: Option<u64>)
    ensures
        r == process_cpu_ticks(stat@),
{
    let v = chars_of(stat);
    let mut i = v.len();
    assert(v@.take(i as int) =~= v@);
    while i > 0 && v[i - 1] != ')'
        invariant
            i <= v@.len(),
            last_index_of(v@, ')') == last_index_of(v@.take(i as int), ')'),
        decreases i,
    {
        assert(v@.take(i as int).drop_last() =~= v@.take(i - 1));
        i = i - 1;
    }
    assert(v@.take(v@.len() as int) =~= v@);
    if i == 0 {
        assert(v@.take(0) =~= Seq::<char>::empty());
        return None;
    }
    let p = i - 1;
    assert(last_index_of(v@.take(i as int), ')') == Some(p as nat));
    if p + 1 >= v.len() || (v[p + 1] as u32) >= 128 {
        return None;
    }
    let toks = token_bounds(&v, p + 2, v.len());
    assert(v@.subrange(p + 2, v@.len() as int) =~= v@.skip(p + 2));
    assert(Seq::new(toks@.len(), |j: int| v@.subrange(toks@[j].0 as int, toks@[j].1 as int))
        =~= tokens_of(v@.skip(p + 2)));
    let utime = match word_at(&v, &toks, 11) { Some(x) => x, None => return None };
    let stime = match word_at(&v, &toks, 12) { Some(x) => x, None => return None };
    Some(utime.saturating_add(stime))
}

/// The resident set size in MB from `/proc/self/status`: the first line
/// that begins with `VmRSS:` decides; its first word is the size in kB.
pub open spec fn rss_mb(ls: Seq<Seq<char>>) -> Option<u64>
    decreases ls.len(),
{
    if ls.len() == 0 {
        None
    } else if starts_with(ls[0], "VmRSS:"@) {
        match first_token_u64(ls[0].skip(6)) {
            Some(kb) => Some((kb / 1024) as u64),
            None => None,
        }
    } else {
        rss_mb(ls.drop_first())
    }
}

/// Reads VmRSS from `/proc/self/status` content and returns MB.
pub fn parse_process_rss_mb(status: &str) -> (r: Option<u64>)
    ensures
        r == rss_mb(lines_of(status@)),
{
    proof {
        reveal_strlit("VmRSS:");
    }
    let ls = lines(status);
    let ghost lv = views(ls@);
    let prefix = chars_of("VmRSS:");
    let mut i: usize = 0;
    assert(lv.skip(0) =~= lv);
    while i < ls.len()
        invariant
            i <= ls@.len(),
            lv == views(ls@),
            lv == lines_of(status@),
            prefix@ == "VmRSS:"@,
            prefix@.len() == 6,
            rss_mb(lv) == rss_mb(lv.skip(i as int)),
        decreases ls@.len() - i,
    {
        assert(lv.skip(i as int).drop_first() =~= lv.skip(i + 1));
        assert(lv.skip(i as int)[0] == lv[i as int]);
        let v = chars_of(ls[i].as_str());
        assert(lv[i as int] == v@);
        assert(v@.subrange(0, v@.len() as int) =~= v@);
        if starts_with_at(&v, 0, v.len(), &prefix) {
            assert(v@.subrange(6, v@.len() as int) =~= v@.skip(6));
            assert(starts_with(lv.skip(i as int)[0], "VmRSS:"@));
            assert(rss_mb(lv.skip(i as int)) == match first_token_u64(v@.skip(6)) {
                Some(kb) => Some((kb / 1024) as u64),
                None => None,
            });
            return match first_token_u64_at(&v, 6, v.len()) {
                Some(kb) => Some(kb / 1024),
                None => None,
            };
        }
        i = i + 1;
    }
    None
}
} // verus!
