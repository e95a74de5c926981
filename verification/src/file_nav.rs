use std::collections::VecDeque;
use vstd::prelude::*;
use crate::order::{sort_strings, sorted};
use crate::text::{join_with, views};

verus! {

broadcast use {vstd::string::group_string_axioms, vstd::std_specs::vecdeque::group_vec_dequeue_axioms};

/// How many directory entries are kept.
pub const FILE_RING: usize = 64;

/// Shared file navigation state rendered by the file_navigation plugin.
#[derive(Debug, Clone)]
pub struct FileNavState {
    /// The directory being listed.
    pub root: String,
    pub lines: VecDeque<String>,
    pub last_error: Option<String>,
}

/// The text of the file navigation panel.
pub open spec fn file_nav_panel_text(state: FileNavState) -> Seq<char> {
    match state.last_error {
        Some(e) => "file_navigation: erro\n"@ + e@,
        None => if state.lines@.len() == 0 {
            "root: "@ + state.root@ + "\n(no entries)"@
        } else {
            join_with(seq!["root: "@ + state.root@] + views(state.lines@), "\n"@)
        },
    }
}

impl FileNavState {
    /// A state for `root` with no listing and no error yet.
    pub fn new(root: String) -> (s: FileNavState)
        ensures
            s.root == root,
            s.lines@.len() == 0,
            s.last_error is None,
    {
        FileNavState { root, lines: VecDeque::new(), last_error: None }
    }

    /// Records the outcome of one directory listing: a listing replaces the
    /// shown lines with its first `FILE_RING` entries and clears the error;
    /// a failure keeps the lines and records its message.
    pub fn apply_listing(&mut self, result: Result<Vec<String>, String>)
        ensures
            final(self).root == old(self).root,
            match result {
                Ok(listing) => {
                    &&& final(self).lines@ == shown_listing(listing@)
                    &&& final(self).last_error is None
                },
                Err(e) => {
                    &&& final(self).lines@ == old(self).lines@
                    &&& final(self).last_error == Some(e)
                },
            },
    {
        match result {
            Ok(listing) => {
                self.lines.clear();
                let n = if listing.len() <= FILE_RING { listing.len() } else { FILE_RING };
                let mut i: usize = 0;
                while i < n
                    invariant
                        i <= n <= listing@.len(),
                        self.lines@ == listing@.take(i as int),
                        self.root == old(self).root,
                    decreases n - i,
                {
                    self.lines.push_back(listing[i].clone());
                    assert(self.lines@ =~= listing@.take(i + 1));
                    i = i + 1;
                }
                assert(self.lines@ =~= (if listing@.len() <= FILE_RING { listing@ } else { listing@.take(FILE_RING as int) }));
                self.last_error = None;
            },
            Err(e) => {
                self.last_error = Some(e);
            },
        }
    }
}

/// The lines a listing shows: its first `FILE_RING` entries.
pub open spec fn shown_listing(listing: Seq<String>) -> Seq<String> {
    if listing.len() <= FILE_RING { listing } else { listing.take(FILE_RING as int) }
}

/// The shown lines after the outcomes `polls` are recorded, one by one, onto
/// a state showing `lines`: those of the last listing, or `lines` when no
/// listing came.
pub open spec fn lines_after_polls(lines: Seq<String>, polls: Seq<Result<Vec<String>, String>>) -> Seq<String>
    decreases polls.len(),
{
    if polls.len() == 0 {
        lines
    } else {
        match polls.last() {
            Ok(listing) => shown_listing(listing@),
            Err(_) => lines_after_polls(lines, polls.drop_last()),
        }
    }
}

/// Recording listing outcomes one by one, as `apply_listing` does, never
/// shows more than `FILE_RING` lines, and each further outcome changes the
/// lines as `apply_listing` states.
pub proof fn lemma_file_nav_window_over_polls(
    lines: Seq<String>,
    polls: Seq<Result<Vec<String>, String>>,
    r: Result<Vec<String>, String>,
)
    requires
        lines.len() <= FILE_RING,
    ensures
        lines_after_polls(lines, polls).len() <= FILE_RING,
        lines_after_polls(lines, polls.push(r)) == (match r {
            Ok(listing) => shown_listing(listing@),
            Err(_) => lines_after_polls(lines, polls),
        }),
    decreases polls.len(),
{
    assert(polls.push(r).drop_last() =~= polls);
    assert(polls.push(r).last() == r);
    if polls.len() > 0 {
        lemma_file_nav_window_over_polls(lines, polls.drop_last(), polls.last());
        assert(polls.drop_last().push(polls.last()) =~= polls);
    }
}

} // verus!

verus! {

/// Renders the current file navigation snapshot for panel display.
pub fn render_file_nav_panel(state: &FileNavState) -> (s: String)
    ensures
        s@ == file_nav_panel_text(*state),
{
    match &state.last_error {
        Some(err) => {
            let mut s = String::from_str("file_navigation: erro\n");
            s.append(err.as_str());
            return s;
        },
        None => {},
    }
    let mut s = String::from_str("root: ");
    s.append(state.root.as_str());
    if state.lines.len() == 0 {
        s.append("\n(no entries)");
        return s;
    }
    let ghost all = seq!["root: "@ + state.root@] + views(state.lines@);
    assert(s@ == join_with(all.take(1), "\n"@)) by {
        assert(all.take(1) =~= seq!["root: "@ + state.root@]);
    }
    let n = state.lines.len();
    let mut i: usize = 0;
    while i < n
        invariant
            i <= n,
            n == state.lines@.len(),
            all == seq!["root: "@ + state.root@] + views(state.lines@),
            s@ == join_with(all.take(i + 1), "\n"@),
        decreases n - i,
    {
        assert(all.take(i + 2).drop_last() =~= all.take(i + 1));
        assert(all[i + 1] == state.lines@[i as int]@);
        s.append("\n");
        s.append(state.lines[i].as_str());
        i = i + 1;
    }
    assert(all.take(n + 1) =~= all);
    s
}


/// The listing line of a directory.
pub fn dir_line(name: &str) -> (line: String)
    ensures
        line@ == "[D] "@ + name@,
{
    let mut line = String::from_str("[D] ");
    line.append(name);
    line
}

/// The listing line of a file whose size is shown as `size`.
pub fn file_line(name: &str, size: &str) -> (line: String)
    ensures
        line@ == "[F] "@ + name@ + " ("@ + size@ + ")"@,
{
    let mut line = String::from_str("[F] ");
    line.append(name);
    line.append(" (");
    line.append(size);
    line.append(")");
    line
}

/// One directory level, folders first: the directory lines in ascending
/// order, then the file lines in ascending order.
pub fn order_listing(dirs: Vec<String>, files: Vec<String>) -> (out: Vec<String>)
    ensures
        exists|d: Seq<Seq<char>>, f: Seq<Seq<char>>| {
            &&& views(out@) == d + f
            &&& sorted(d)
            &&& sorted(f)
            &&& d.to_multiset() == views(dirs@).to_multiset()
            &&& f.to_multiset() == views(files@).to_multiset()
        },
{
    let mut out = sort_strings(dirs);
    let sf = sort_strings(files);
    let ghost d = views(out@);
    let ghost f = views(sf@);
    let mut i: usize = 0;
    while i < sf.len()
        invariant
            i <= sf@.len(),
            f == views(sf@),
            views(out@) == d + f.take(i as int),
        decreases sf@.len() - i,
    {
        let x = sf[i].clone();
        let ghost before = out@;
        out.push(x);
        assert(views(out@) =~= views(before).push(x@));
        assert(views(out@) =~= d + f.take(i + 1));
        i = i + 1;
    }
    assert(f.take(i as int) =~= f);
    out
}
} // verus!
