use std::collections::VecDeque;
use vstd::prelude::*;
use crate::ring::{newest, push_bounded, ring_push, ring_push_all};
use crate::text::{chars_of, join_with, open_line, string_of, views};

verus! {

broadcast use {vstd::string::group_string_axioms, vstd::std_specs::vecdeque::group_vec_dequeue_axioms};

/// How many terminal lines are kept.
pub const PTY_RING: usize = 120;

/// How many of the newest lines the panel shows.
pub const PTY_VISIBLE: usize = 22;

/// Shared PTY state consumed by the terminal plugin.
#[derive(Debug, Clone)]
pub struct PtyState {
    pub lines: VecDeque<String>,
    pub last_error: Option<String>,
}

impl Default for PtyState {
    fn default() -> (s: PtyState)
        ensures
            s.lines@.len() == 0,
            s.last_error is None,
    {
        PtyState { lines: VecDeque::new(), last_error: None }
    }
}

/// The text of the terminal panel.
pub open spec fn pty_panel_text(state: PtyState) -> Seq<char> {
    match state.last_error {
        Some(e) => "PTY error\n"@ + e@,
        None => if state.lines@.len() == 0 {
            "PTY: aguardando dados..."@
        } else {
            join_with(newest(views(state.lines@), PTY_VISIBLE as nat), "\n"@)
        },
    }
}

/// `s` without the carriage returns and line feeds that end it.
pub open spec fn trim_end_crlf(s: Seq<char>) -> Seq<char>
    decreases s.len(),
{
    if s.len() > 0 && (s.last() == '\r' || s.last() == '\n') {
        trim_end_crlf(s.drop_last())
    } else {
        s
    }
}

/// The non-empty lines that the line feeds of `s` complete, their trailing
/// carriage returns removed.
pub open spec fn completed_lines(s: Seq<char>) -> Seq<Seq<char>>
    decreases s.len(),
{
    if s.len() == 0 {
        seq![]
    } else if s.last() == '\n' && trim_end_crlf(open_line(s.drop_last())).len() > 0 {
        completed_lines(s.drop_last()).push(trim_end_crlf(open_line(s.drop_last())))
    } else {
        completed_lines(s.drop_last())
    }
}

/// Appending to a deque of strings and taking views commute.
pub proof fn lemma_views_ring_push(q: Seq<String>, cap: nat, x: String)
    ensures
        views(ring_push(q, cap, x)) == ring_push(views(q), cap, x@),
{
    if q.len() >= cap && q.len() > 0 {
        assert(views(q.drop_first().push(x)) =~= views(q).drop_first().push(x@));
    } else {
        assert(views(q.push(x)) =~= views(q).push(x@));
    }
}

/// Renders current PTY lines for panel display.
pub fn render_pty_panel(state: &PtyState) -> (s: String)
    ensures
        s@ == pty_panel_text(*state),
{
    match &state.last_error {
        Some(err) => {
            let mut s = String::from_str("PTY error\n");
            s.append(err.as_str());
            return s;
        },
        None => {},
    }
    let n = state.lines.len();
    if n == 0 {
        return String::from_str("PTY: aguardando dados...");
    }
    let start = if n > PTY_VISIBLE { n - PTY_VISIBLE } else { 0 };
    let ghost shown = newest(views(state.lines@), PTY_VISIBLE as nat);
    assert(shown =~= views(state.lines@).skip(start as int));
    let mut s = String::new();
    let mut i = start;
    while i < n
        invariant
            start <= i <= n,
            n == state.lines@.len(),
            n > 0,
            start < n,
            shown == views(state.lines@).skip(start as int),
            s@ == join_with(shown.take(i - start), "\n"@),
        decreases n - i,
    {
        assert(shown.take(i + 1 - start).drop_last() =~= shown.take(i - start));
        if i > start {
            s.append("\n");
        }
        s.append(state.lines[i].as_str());
        i = i + 1;
    }
    assert(shown.take(n - start) =~= shown);
    s
}

impl PtyState {
    /// Adds terminal output: `chunk` is appended to the unfinished line in
    /// `pending`; every line it completes is kept, without its trailing
    /// carriage returns and unless it is empty, in a window of the newest
    /// `PTY_RING` lines; what follows the last line feed stays pending.
    pub fn ingest_output(&mut self, pending: &mut String, chunk: &str)
        ensures
            final(pending)@ == open_line(old(pending)@ + chunk@),
            views(final(self).lines@) == ring_push_all(views(old(self).lines@), PTY_RING as nat,
                completed_lines(old(pending)@ + chunk@)),
            final(self).last_error == old(self).last_error,
    {
        let mut text = chars_of(pending.as_str());
        let extra = chars_of(chunk);
        let ghost s = pending@ + chunk@;
        let mut j: usize = 0;
        while j < extra.len()
            invariant
                j <= extra@.len(),
                text@ == pending@ + extra@.take(j as int),
            decreases extra@.len() - j,
        {
            text.push(extra[j]);
            assert(extra@.take(j + 1) =~= extra@.take(j as int).push(extra@[j as int]));
            j = j + 1;
        }
        assert(extra@.take(j as int) =~= chunk@);
        assert(text@ == s);
        let mut line_start: usize = 0;
        let mut i: usize = 0;
        assert(views(self.lines@) =~= ring_push_all(views(self.lines@), PTY_RING as nat, completed_lines(s.take(0))));
        let ghost before = views(self.lines@);
        while i < text.len()
            invariant
                line_start <= i <= text@.len(),
                text@ == s,
                text@.subrange(line_start as int, i as int) == open_line(s.take(i as int)),
                views(self.lines@) == ring_push_all(before, PTY_RING as nat, completed_lines(s.take(i as int))),
                self.last_error == old(self).last_error,
            decreases text@.len() - i,
        {
            let ghost p = s.take(i as int);
            assert(s.take(i + 1).drop_last() =~= p);
            if text[i] == '\n' {
                let mut end = i;
                while end > line_start && (text[end - 1] == '\r' || text[end - 1] == '\n')
                    invariant
                        line_start <= end <= i,
                        i < text@.len(),
                        trim_end_crlf(text@.subrange(line_start as int, i as int))
                            == trim_end_crlf(text@.subrange(line_start as int, end as int)),
                    decreases end,
                {
                    assert(text@.subrange(line_start as int, end as int).drop_last()
                        =~= text@.subrange(line_start as int, end - 1));
                    end = end - 1;
                }
                assert(trim_end_crlf(text@.subrange(line_start as int, end as int))
                    == text@.subrange(line_start as int, end as int));
                let ghost seg = trim_end_crlf(open_line(p));
                assert(seg == text@.subrange(line_start as int, end as int));
                if end > line_start {
                    let line = string_of(&text, line_start, end);
                    let ghost q = self.lines@;
                    push_bounded(&mut self.lines, line, PTY_RING);
                    proof {
                        lemma_views_ring_push(q, PTY_RING as nat, line);
                        let xs = completed_lines(p);
                        assert(completed_lines(s.take(i + 1)) == xs.push(seg));
                        assert(xs.push(seg).drop_last() =~= xs);
                    }
                } else {
                    assert(completed_lines(s.take(i + 1)) == completed_lines(p));
                }
                line_start = i + 1;
                assert(text@.subrange(line_start as int, (i + 1) as int) =~= Seq::<char>::empty());
            } else {
                assert(text@.subrange(line_start as int, (i + 1) as int)
                    =~= text@.subrange(line_start as int, i as int).push(text@[i as int]));
            }
            i = i + 1;
        }
        assert(s.take(i as int) =~= s);
        *pending = string_of(&text, line_start, text.len());
    }
}

} // verus!
