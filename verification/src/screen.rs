use vstd::prelude::*;
use crate::text::{chars_of, join, join_with, lines, lines_of, string_of, views};

verus! {

broadcast use vstd::string::group_string_axioms;

/// At most the first `w` characters of `s`.
pub open spec fn take_upto(s: Seq<char>, w: nat) -> Seq<char> {
    if s.len() <= w {
        s
    } else {
        s.take(w as int)
    }
}

/// `s` cut into rows of `w` characters, the last row holding the rest.
pub open spec fn chunks(s: Seq<char>, w: nat) -> Seq<Seq<char>>
    decreases s.len(),
{
    if s.len() == 0 || w == 0 {
        seq![]
    } else if s.len() <= w {
        seq![s]
    } else {
        seq![s.take(w as int)] + chunks(s.skip(w as int), w)
    }
}

/// The rows one text line takes in a panel `w` characters wide: wrapped
/// into rows of `w` characters, or cut at `w` characters when not wrapping.
/// An empty line still takes one row.
pub open spec fn line_rows(raw: Seq<char>, w: nat, wrap: bool) -> Seq<Seq<char>> {
    if !wrap {
        seq![take_upto(raw, w)]
    } else if raw.len() == 0 {
        seq![seq![]]
    } else {
        chunks(raw, w)
    }
}

/// The rows that the lines `ls` take, one after the other.
pub open spec fn rows_of(ls: Seq<Seq<char>>, w: nat, wrap: bool) -> Seq<Seq<char>>
    decreases ls.len(),
{
    if ls.len() == 0 {
        seq![]
    } else {
        rows_of(ls.drop_last(), w, wrap) + line_rows(ls.last(), w, wrap)
    }
}

/// At most the first `h` rows of `r`.
pub open spec fn capped(r: Seq<Seq<char>>, h: nat) -> Seq<Seq<char>> {
    if r.len() <= h {
        r
    } else {
        r.take(h as int)
    }
}

/// The inner size of a bordered panel: two cells fewer each way, never negative.
pub open spec fn inner(n: u16) -> nat {
    if n >= 2 { (n - 2) as nat } else { 0 }
}

/// The rows shown when `text` is fitted into a bordered panel of
/// `width` x `height` cells.
pub open spec fn fitted_rows(text: Seq<char>, width: u16, height: u16, wrap: bool) -> Seq<Seq<char>> {
    if inner(width) == 0 || inner(height) == 0 {
        seq![]
    } else {
        capped(rows_of(lines_of(text), inner(width), wrap), inner(height))
    }
}

/// The rows of consecutive lines are the rows of each part, in order.
pub proof fn lemma_rows_of_concat(a: Seq<Seq<char>>, b: Seq<Seq<char>>, w: nat, wrap: bool)
    ensures
        rows_of(a + b, w, wrap) == rows_of(a, w, wrap) + rows_of(b, w, wrap),
    decreases b.len(),
{
    if b.len() == 0 {
        assert(a + b =~= a);
        assert(rows_of(a, w, wrap) + rows_of(b, w, wrap) =~= rows_of(a, w, wrap));
    } else {
        lemma_rows_of_concat(a, b.drop_last(), w, wrap);
        assert((a + b).drop_last() =~= a + b.drop_last());
        assert((a + b).last() == b.last());
        assert(rows_of(a + b, w, wrap) =~= rows_of(a, w, wrap) + rows_of(b, w, wrap));
    }
}

/// Every row a line takes is at most `w` characters long.
pub proof fn lemma_chunks_fit(s: Seq<char>, w: nat)
    ensures
        forall|k: int| 0 <= k < chunks(s, w).len() ==> (#[trigger] chunks(s, w)[k]).len() <= w,
    decreases s.len(),
{
    if s.len() > 0 && w > 0 && s.len() > w {
        lemma_chunks_fit(s.skip(w as int), w);
        assert forall|k: int| 0 <= k < chunks(s, w).len() implies (#[trigger] chunks(s, w)[k]).len() <= w by {
            if k > 0 {
                assert(chunks(s, w)[k] == chunks(s.skip(w as int), w)[k - 1]);
            }
        }
    }
}

/// Every row of the lines `ls` is at most `w` characters long.
pub proof fn lemma_rows_fit(ls: Seq<Seq<char>>, w: nat, wrap: bool)
    ensures
        forall|k: int| 0 <= k < rows_of(ls, w, wrap).len() ==> (#[trigger] rows_of(ls, w, wrap)[k]).len() <= w,
    decreases ls.len(),
{
    if ls.len() > 0 {
        lemma_rows_fit(ls.drop_last(), w, wrap);
        lemma_chunks_fit(ls.last(), w);
        let a = rows_of(ls.drop_last(), w, wrap);
        let b = line_rows(ls.last(), w, wrap);
        assert forall|k: int| 0 <= k < rows_of(ls, w, wrap).len() implies (#[trigger] rows_of(ls, w, wrap)[k]).len() <= w by {
            if k >= a.len() {
                assert(rows_of(ls, w, wrap)[k] == b[k - a.len()]);
            } else {
                assert(rows_of(ls, w, wrap)[k] == a[k]);
            }
        }
    }
}

/// Fitted text never leaves its panel: it has at most as many rows as the
/// panel's inner height, each at most as long as the inner width.
pub proof fn lemma_fitted_rows_fit(text: Seq<char>, width: u16, height: u16, wrap: bool)
    ensures
        fitted_rows(text, width, height, wrap).len() <= inner(height),
        forall|k: int| 0 <= k < fitted_rows(text, width, height, wrap).len()
            ==> (#[trigger] fitted_rows(text, width, height, wrap)[k]).len() <= inner(width),
{
    if inner(width) != 0 && inner(height) != 0 {
        lemma_rows_fit(lines_of(text), inner(width), wrap);
        let r = rows_of(lines_of(text), inner(width), wrap);
        assert forall|k: int| 0 <= k < fitted_rows(text, width, height, wrap).len()
            implies (#[trigger] fitted_rows(text, width, height, wrap)[k]).len() <= inner(width) by {
            assert(fitted_rows(text, width, height, wrap)[k] == r[k]);
        }
    }
}

/// Keeps at most the first `width` characters of `text`.
pub fn trim_to_width(text: &str, width: usize) -> (s: String)
    ensures
        s@ == take_upto(text@, width as nat),
{
    let v = chars_of(text);
    let end = if v.len() <= width { v.len() } else { width };
    let s = string_of(&v, 0, end);
    assert(s@ =~= take_upto(text@, width as nat));
    s
}

/// Fits text into the inner panel area by wrapping long lines and clipping overflow rows.
pub fn fit_text_to_area(text: &str, width: u16, height: u16, wrap: bool) -> (s: String)
    ensures
        s@ == join_with(fitted_rows(text@, width, height, wrap), "\n"@),
{
    let inner_w = width.saturating_sub(2) as usize;
    let inner_h = height.saturating_sub(2) as usize;
    if inner_w == 0 || inner_h == 0 {
        return String::new();
    }
    let ghost w = inner_w as nat;
    let ghost h = inner_h as nat;
    let ls = lines(text);
    let ghost lv = views(ls@);
    let mut out: Vec<String> = Vec::new();
    let mut i: usize = 0;
    while i < ls.len() && out.len() < inner_h
        invariant
            inner_w > 0,
            inner_h > 0,
            w == inner_w,
            h == inner_h,
            lv == views(ls@),
            lv == lines_of(text@),
            i <= ls@.len(),
            out@.len() <= inner_h,
            views(out@) == capped(rows_of(lv.take(i as int), w, wrap), h),
        decreases ls@.len() - i,
    {
        let ghost base = views(out@);
        let ghost prefix = lv.take(i as int);
        assert(lv.take(i + 1) =~= prefix.push(lv[i as int]));
        assert(lv.take(i + 1).drop_last() =~= prefix);
        assert(base == rows_of(prefix, w, wrap));
        if !wrap {
            out.push(trim_to_width(ls[i].as_str(), inner_w));
            assert(views(out@) =~= base + line_rows(lv[i as int], w, wrap));
        } else {
            let raw = chars_of(ls[i].as_str());
            if raw.len() == 0 {
                out.push(String::new());
                assert(views(out@) =~= base + line_rows(lv[i as int], w, wrap));
            } else {
                let mut pos: usize = 0;
                let ghost mut done: Seq<Seq<char>> = seq![];
                assert(raw@.skip(0) =~= raw@);
                assert(done + chunks(raw@, w) =~= chunks(raw@, w));
                while pos < raw.len() && out.len() < inner_h
                    invariant
                        inner_w > 0,
                        w == inner_w,
                        h == inner_h,
                        pos <= raw@.len(),
                        raw@ == lv[i as int],
                        raw@.len() > 0,
                        out@.len() <= inner_h,
                        views(out@) == base + done,
                        chunks(raw@, w) == done + chunks(raw@.skip(pos as int), w),
                    decreases raw@.len() - pos,
                {
                    let ghost rest = raw@.skip(pos as int);
                    let ghost done_before = done;
                    assert(views(out@) == base + done_before);
                    let remaining = raw.len() - pos;
                    let k = if remaining <= inner_w { remaining } else { inner_w };
                    let chunk = string_of(&raw, pos, pos + k);
                    proof {
                        if rest.len() <= w {
                            assert(chunks(rest, w) =~= seq![rest]);
                            assert(raw@.skip(pos + k) =~= Seq::<char>::empty());
                        } else {
                            assert(rest.skip(w as int) =~= raw@.skip(pos + k));
                            assert(chunks(rest, w) == seq![rest.take(w as int)] + chunks(rest.skip(w as int), w));
                        }
                        assert(chunk@ =~= chunks(rest, w)[0]);
                        assert(chunks(rest, w) =~= seq![chunk@] + chunks(raw@.skip(pos + k), w));
                        done = done.push(chunk@);
                    }
                    let ghost old_out = out@;
                    out.push(chunk);
                    assert(out@ == old_out.push(chunk));
                    assert(views(out@) =~= views(old_out).push(chunk@));
                    assert(done == done_before.push(chunk@));
                    pos = pos + k;
                    assert(views(out@) =~= base + done);
                }
                proof {
                    if pos == raw.len() {
                        assert(raw@.skip(pos as int) =~= Seq::<char>::empty());
                        assert(done =~= chunks(raw@, w));
                    }
                }
            }
        }
        proof {
            let r = rows_of(lv.take(i + 1), w, wrap);
            assert(r == base + line_rows(lv[i as int], w, wrap));
            if views(out@).len() < h {
                assert(views(out@) =~= r);
            } else {
                assert(capped(r, h) =~= views(out@));
            }
        }
        i = i + 1;
    }
    proof {
        lemma_rows_of_concat(lv.take(i as int), lv.skip(i as int), w, wrap);
        assert(lv.take(i as int) + lv.skip(i as int) =~= lv);
        let r = rows_of(lv, w, wrap);
        let p = rows_of(lv.take(i as int), w, wrap);
        if i < ls@.len() {
            assert(p.len() >= h);
            assert(capped(r, h) =~= capped(p, h));
        } else {
            assert(lv.take(i as int) =~= lv);
        }
    }
    join(&out, "\n")
}

} // verus!
