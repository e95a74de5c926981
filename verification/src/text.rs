use vstd::prelude::*;

verus! {

broadcast use vstd::string::group_string_axioms;

// ---------------------------------------------------------------------------
// Specifications of the text primitives the panels are built from.
// ---------------------------------------------------------------------------

/// The views of a sequence of strings.
pub open spec fn views(v: Seq<String>) -> Seq<Seq<char>> {
    v.map_values(|s: String| s@)
}

/// Unicode `White_Space`, the property behind `char::is_whitespace`.
pub open spec fn is_ws(c: char) -> bool {
    ||| c == ' '
    ||| ('\t' <= c && c <= '\r')
    ||| c == '\u{85}'
    ||| c == '\u{a0}'
    ||| c == '\u{1680}'
    ||| ('\u{2000}' <= c && c <= '\u{200a}')
    ||| c == '\u{2028}'
    ||| c == '\u{2029}'
    ||| c == '\u{202f}'
    ||| c == '\u{205f}'
    ||| c == '\u{3000}'
}

/// Every character of `s` is whitespace (what `s.trim().is_empty()` tests).
pub open spec fn is_blank(s: Seq<char>) -> bool {
    forall|i: int| 0 <= i < s.len() ==> is_ws(#[trigger] s[i])
}

/// `s` without its leading whitespace.
pub open spec fn trim_start(s: Seq<char>) -> Seq<char>
    decreases s.len(),
{
    if s.len() > 0 && is_ws(s[0]) {
        trim_start(s.drop_first())
    } else {
        s
    }
}

/// Drops one carriage return that ends a line.
pub open spec fn strip_cr(l: Seq<char>) -> Seq<char> {
    if l.len() > 0 && l.last() == '\r' {
        l.drop_last()
    } else {
        l
    }
}

/// The characters after the last line feed of `s`.
pub open spec fn open_line(s: Seq<char>) -> Seq<char>
    decreases s.len(),
{
    if s.len() == 0 {
        seq![]
    } else if s.last() == '\n' {
        seq![]
    } else {
        open_line(s.drop_last()).push(s.last())
    }
}

/// The lines of `s` that a line feed ends, without their line endings.
pub open spec fn closed_lines(s: Seq<char>) -> Seq<Seq<char>>
    decreases s.len(),
{
    if s.len() == 0 {
        seq![]
    } else if s.last() == '\n' {
        closed_lines(s.drop_last()).push(strip_cr(open_line(s.drop_last())))
    } else {
        closed_lines(s.drop_last())
    }
}

/// The lines of `s` as `str::lines` yields them: split at `\n`, a `\r`
/// before the `\n` removed, and no empty line after a final line ending.
pub open spec fn lines_of(s: Seq<char>) -> Seq<Seq<char>> {
    if open_line(s).len() == 0 {
        closed_lines(s)
    } else {
        closed_lines(s).push(open_line(s))
    }
}

/// The characters after the last whitespace of `s`.
pub open spec fn open_token(s: Seq<char>) -> Seq<char>
    decreases s.len(),
{
    if s.len() == 0 {
        seq![]
    } else if is_ws(s.last()) {
        seq![]
    } else {
        open_token(s.drop_last()).push(s.last())
    }
}

/// The non-empty whitespace-separated words of `s` that whitespace ends.
pub open spec fn closed_tokens(s: Seq<char>) -> Seq<Seq<char>>
    decreases s.len(),
{
    if s.len() == 0 {
        seq![]
    } else if is_ws(s.last()) && open_token(s.drop_last()).len() > 0 {
        closed_tokens(s.drop_last()).push(open_token(s.drop_last()))
    } else {
        closed_tokens(s.drop_last())
    }
}

/// The words of `s` as `str::split_whitespace` yields them.
pub open spec fn tokens_of(s: Seq<char>) -> Seq<Seq<char>> {
    if open_token(s).len() == 0 {
        closed_tokens(s)
    } else {
        closed_tokens(s).push(open_token(s))
    }
}

/// The pieces of `ls` joined with `sep` between each two.
pub open spec fn join_with(ls: Seq<Seq<char>>, sep: Seq<char>) -> Seq<char>
    decreases ls.len(),
{
    if ls.len() == 0 {
        seq![]
    } else if ls.len() == 1 {
        ls[0]
    } else {
        join_with(ls.drop_last(), sep) + sep + ls.last()
    }
}

/// The character of the decimal digit `d`.
pub open spec fn digit_char(d: nat) -> char {
    (d + 48) as char
}

/// `n` written in decimal, without leading zeros.
pub open spec fn decimal(n: nat) -> Seq<char>
    decreases n,
{
    if n < 10 {
        seq![digit_char(n)]
    } else {
        decimal(n / 10).push(digit_char(n % 10))
    }
}

/// `s` right-aligned in a field of `width` characters.
pub open spec fn pad_left(s: Seq<char>, width: nat) -> Seq<char> {
    if s.len() < width {
        Seq::new((width - s.len()) as nat, |i: int| ' ') + s
    } else {
        s
    }
}

/// An ASCII decimal digit.
pub open spec fn is_digit(c: char) -> bool {
    '0' <= c && c <= '9'
}

/// The value of a string of decimal digits.
pub open spec fn digits_value(s: Seq<char>) -> nat
    decreases s.len(),
{
    if s.len() == 0 {
        0
    } else {
        digits_value(s.drop_last()) * 10 + ((s.last() as int) - 48) as nat
    }
}

/// Every character of `s` is an ASCII digit.
pub open spec fn all_digits(s: Seq<char>) -> bool {
    forall|i: int| 0 <= i < s.len() ==> is_digit(#[trigger] s[i])
}

/// The digits part of a number: `s` without a leading `+`, unless the `+` is
/// all there is.
pub open spec fn unsigned_digits(s: Seq<char>) -> Seq<char> {
    if s.len() > 1 && s[0] == '+' {
        s.drop_first()
    } else {
        s
    }
}

/// What `str::parse::<u64>` gives: an optional `+` (not alone), then one or
/// more ASCII digits whose value fits in 64 bits.
pub open spec fn parse_u64_spec(s: Seq<char>) -> Option<u64> {
    let d = unsigned_digits(s);
    if d.len() > 0 && all_digits(d) && digits_value(d) <= u64::MAX {
        Some(digits_value(d) as u64)
    } else {
        None
    }
}

// ---------------------------------------------------------------------------
// Trusted primitive.
// ---------------------------------------------------------------------------

/// Appends one character to a string.
/// Trusted: `String::push` leaves the earlier characters in place and adds
/// `c` at the end, as its documentation states.
#[verifier::external_body]
pub(crate) fn push_char(s: &mut String, c: char)
    ensures
        final(s)@ == old(s)@.push(c),
{
    s.push(c);
}

// ---------------------------------------------------------------------------
// Executable text primitives.
// ---------------------------------------------------------------------------

/// The characters of `s`, in order.
pub fn chars_of(s: &str) -> (v: Vec<char>)
    ensures
        v@ == s@,
{
    let mut v: Vec<char> = Vec::new();
    for c in it: s.chars()
        invariant
            v@ == it.seq().take(it.index()),
            it.seq() == s@,
    {
        v.push(c);
    }
    v
}

/// The string made of the characters `v[start..end]`.
pub fn string_of(v: &Vec<char>, start: usize, end: usize) -> (s: String)
    requires
        start <= end <= v@.len(),
    ensures
        s@ == v@.subrange(start as int, end as int),
{
    let mut s = String::new();
    let mut i = start;
    while i < end
        invariant
            start <= i <= end <= v@.len(),
            s@ == v@.subrange(start as int, i as int),
        decreases end - i,
    {
        push_char(&mut s, v[i]);
        assert(v@.subrange(start as int, i + 1) =~= v@.subrange(start as int, i as int).push(v@[i as int]));
        i = i + 1;
    }
    s
}

/// Whether `c` is whitespace (Unicode `White_Space`).
pub fn is_whitespace(c: char) -> (b: bool)
    ensures
        b == is_ws(c),
{
    c == ' ' || ('\t' <= c && c <= '\r') || c == '\u{85}' || c == '\u{a0}' || c == '\u{1680}'
        || ('\u{2000}' <= c && c <= '\u{200a}') || c == '\u{2028}' || c == '\u{2029}'
        || c == '\u{202f}' || c == '\u{205f}' || c == '\u{3000}'
}

/// Whether every character of `s` is whitespace.
pub fn is_blank_str(s: &str) -> (b: bool)
    ensures
        b == is_blank(s@),
{
    let v = chars_of(s);
    let mut i: usize = 0;
    while i < v.len()
        invariant
            i <= v@.len(),
            v@ == s@,
            forall|j: int| 0 <= j < i ==> is_ws(#[trigger] v@[j]),
        decreases v@.len() - i,
    {
        if !is_whitespace(v[i]) {
            return false;
        }
        i = i + 1;
    }
    true
}

/// The lines of `s` as `str::lines` yields them.
pub fn lines(s: &str) -> (out: Vec<String>)
    ensures
        views(out@) == lines_of(s@),
{
    let v = chars_of(s);
    let mut out: Vec<String> = Vec::new();
    let mut cur: Vec<char> = Vec::new();
    let mut i: usize = 0;
    while i < v.len()
        invariant
            i <= v@.len(),
            v@ == s@,
            views(out@) == closed_lines(v@.take(i as int)),
            cur@ == open_line(v@.take(i as int)),
        decreases v@.len() - i,
    {
        let c = v[i];
        assert(v@.take(i + 1).drop_last() =~= v@.take(i as int));
        if c == '\n' {
            let mut end = cur.len();
            if end > 0 && cur[end - 1] == '\r' {
                end = end - 1;
            }
            let line = string_of(&cur, 0, end);
            assert(line@ =~= strip_cr(cur@));
            out.push(line);
            cur = Vec::new();
            assert(views(out@) =~= closed_lines(v@.take(i as int)).push(strip_cr(open_line(v@.take(i as int)))));
        } else {
            cur.push(c);
        }
        i = i + 1;
    }
    assert(v@.take(i as int) =~= v@);
    if cur.len() > 0 {
        let last = string_of(&cur, 0, cur.len());
        assert(last@ =~= cur@);
        out.push(last);
        assert(views(out@) =~= lines_of(s@));
    }
    out
}

/// The pieces of `v` joined with `sep` between each two.
pub fn join(v: &Vec<String>, sep: &str) -> (s: String)
    ensures
        s@ == join_with(views(v@), sep@),
{
    let mut s = String::new();
    let mut i: usize = 0;
    while i < v.len()
        invariant
            i <= v@.len(),
            s@ == join_with(views(v@).take(i as int), sep@),
        decreases v@.len() - i,
    {
        assert(views(v@).take(i + 1).drop_last() =~= views(v@).take(i as int));
        if i > 0 {
            s.append(sep);
        }
        s.append(v[i].as_str());
        i = i + 1;
    }
    assert(views(v@).take(i as int) =~= views(v@));
    s
}

/// The whitespace-separated words of `v[start..end]`, as positions into `v`.
pub fn token_bounds(v: &Vec<char>, start: usize, end: usize) -> (out: Vec<(usize, usize)>)
    requires
        start <= end <= v@.len(),
    ensures
        out@.len() == tokens_of(v@.subrange(start as int, end as int)).len(),
        forall|k: int| 0 <= k < out@.len() ==> {
            &&& start <= (#[trigger] out@[k]).0 <= out@[k].1 <= end
            &&& v@.subrange(out@[k].0 as int, out@[k].1 as int)
                == tokens_of(v@.subrange(start as int, end as int))[k]
        },
{
    let ghost s = v@.subrange(start as int, end as int);
    let mut out: Vec<(usize, usize)> = Vec::new();
    let mut tok_start: usize = start;
    let mut i: usize = start;
    while i < end
        invariant
            start <= tok_start <= i <= end <= v@.len(),
            s == v@.subrange(start as int, end as int),
            v@.subrange(tok_start as int, i as int) == open_token(s.take(i - start)),
            out@.len() == closed_tokens(s.take(i - start)).len(),
            forall|k: int| 0 <= k < out@.len() ==> {
                &&& start <= (#[trigger] out@[k]).0 <= out@[k].1 <= i
                &&& v@.subrange(out@[k].0 as int, out@[k].1 as int)
                    == closed_tokens(s.take(i - start))[k]
            },
        decreases end - i,
    {
        let ghost p = s.take(i - start);
        let ghost p1 = s.take(i + 1 - start);
        assert(p1.drop_last() =~= p);
        assert(p1.last() == v@[i as int]);
        if is_whitespace(v[i]) {
            if tok_start < i {
                out.push((tok_start, i));
            }
            tok_start = i + 1;
            assert(v@.subrange(tok_start as int, (i + 1) as int) =~= Seq::<char>::empty());
        } else {
            assert(v@.subrange(tok_start as int, (i + 1) as int)
                =~= v@.subrange(tok_start as int, i as int).push(v@[i as int]));
        }
        i = i + 1;
    }
    assert(s.take(end - start) =~= s);
    if tok_start < end {
        out.push((tok_start, end));
    }
    out
}

/// `n` written in decimal.
pub fn decimal_string(n: u64) -> (s: String)
    ensures
        s@ == decimal(n as nat),
{
    let mut digits: Vec<char> = Vec::new();
    let mut m = n;
    while m >= 10
        invariant
            decimal(n as nat) == decimal(m as nat) + digits@,
        decreases m,
    {
        let d = (m % 10) as u8;
        let c = (48u8 + d) as char;
        assert(c == digit_char((m % 10) as nat));
        let ghost prev = digits@;
        digits.insert(0, c);
        assert(decimal(m as nat) == decimal((m / 10) as nat).push(c));
        assert(decimal((m / 10) as nat).push(c) + prev =~= decimal((m / 10) as nat) + digits@);
        m = m / 10;
    }
    let c = (48u8 + m as u8) as char;
    digits.insert(0, c);
    assert(decimal(m as nat) =~= seq![c]);
    string_of(&digits, 0, digits.len())
}


/// Whether `a` and `b` hold the same characters.
pub fn chars_eq(a: &Vec<char>, b: &Vec<char>) -> (r: bool)
    ensures
        r == (a@ == b@),
{
    if a.len() != b.len() {
        return false;
    }
    let mut i: usize = 0;
    while i < a.len()
        invariant
            i <= a@.len(),
            a@.len() == b@.len(),
            forall|j: int| 0 <= j < i ==> a@[j] == b@[j],
        decreases a@.len() - i,
    {
        if a[i] != b[i] {
            return false;
        }
        i = i + 1;
    }
    assert(a@ =~= b@);
    true
}

/// Whether `a` and `b` hold the same characters.
pub fn str_eq(a: &str, b: &str) -> (r: bool)
    ensures
        r == (a@ == b@),
{
    chars_eq(&chars_of(a), &chars_of(b))
}

/// `str::parse::<u64>` applied to the characters `v[start..end]`.
pub fn parse_u64(v: &Vec<char>, start: usize, end: usize) -> (r: Option<u64>)
    requires
        start <= end <= v@.len(),
    ensures
        r == parse_u64_spec(v@.subrange(start as int, end as int)),
{
    let ghost s = v@.subrange(start as int, end as int);
    let mut i = start;
    if end - start > 1 && v[start] == '+' {
        i = start + 1;
    }
    let ghost d = v@.subrange(i as int, end as int);
    assert(d == unsigned_digits(s));
    if i == end {
        return None;
    }
    let mut acc: u64 = 0;
    let mut j = i;
    let mut overflow = false;
    while j < end
        invariant
            start <= i <= j <= end <= v@.len(),
            d == v@.subrange(i as int, end as int),
            s == v@.subrange(start as int, end as int),
            d == unsigned_digits(s),
            forall|k: int| i <= k < j ==> is_digit(#[trigger] v@[k]),
            !overflow ==> acc == digits_value(v@.subrange(i as int, j as int)),
            overflow ==> digits_value(v@.subrange(i as int, j as int)) > u64::MAX,
        decreases end - j,
    {
        let c = v[j];
        if !('0' <= c && c <= '9') {
            assert(d[j - i] == c);
            assert(!all_digits(d));
            return None;
        }
        let dv: u64 = (c as u32 - 48) as u64;
        let ghost pre = v@.subrange(i as int, j as int);
        let ghost next = v@.subrange(i as int, j + 1);
        assert(next.drop_last() =~= pre);
        assert(digits_value(next) == digits_value(pre) * 10 + dv);
        if !overflow {
            if acc > 1844674407370955161 || (acc == 1844674407370955161 && dv > 5) {
                overflow = true;
            } else {
                acc = acc * 10 + dv;
            }
        }
        j = j + 1;
    }
    assert(v@.subrange(i as int, j as int) =~= d);
    if overflow {
        None
    } else {
        Some(acc)
    }
}
} // verus!

verus! {

/// `pat` occurs in `s` at position `i`.
pub open spec fn occurs_at(s: Seq<char>, pat: Seq<char>, i: int) -> bool {
    0 <= i && i + pat.len() <= s.len() && s.subrange(i, i + pat.len()) == pat
}

/// The first position at or after `from` where `pat` occurs in `s`.
pub open spec fn find_from(s: Seq<char>, pat: Seq<char>, from: nat) -> Option<nat>
    decreases s.len() + 1 - from,
{
    if from + pat.len() > s.len() {
        None
    } else if occurs_at(s, pat, from as int) {
        Some(from)
    } else {
        find_from(s, pat, from + 1)
    }
}

/// The ASCII digits that begin `s`.
pub open spec fn leading_digits(s: Seq<char>) -> Seq<char>
    decreases s.len(),
{
    if s.len() > 0 && is_digit(s[0]) {
        seq![s[0]] + leading_digits(s.drop_first())
    } else {
        seq![]
    }
}

/// The first position at or after `from` where `needle` occurs in `hay`.
pub fn find_chars(hay: &Vec<char>, needle: &Vec<char>, from: usize) -> (r: Option<usize>)
    requires
        from <= hay@.len(),
    ensures
        match r {
            Some(i) => find_from(hay@, needle@, from as nat) == Some(i as nat),
            None => find_from(hay@, needle@, from as nat) is None,
        },
        r matches Some(i) ==> i + needle@.len() <= hay.len(),
{
    let n = needle.len();
    if n > hay.len() {
        return None;
    }
    let mut i = from;
    while i <= hay.len() - n
        invariant
            n <= hay@.len(),
            from <= i <= hay@.len() + 1,
            n == needle@.len(),
            find_from(hay@, needle@, from as nat) == find_from(hay@, needle@, i as nat),
        decreases hay@.len() + 1 - i,
    {
        let mut k: usize = 0;
        let mut matched = true;
        while k < n
            invariant
                k <= n,
                n == needle@.len(),
                i + n <= hay.len(),
                matched ==> forall|j: int| 0 <= j < k ==> hay@[i + j] == needle@[j],
                !matched ==> !occurs_at(hay@, needle@, i as int),
            decreases n - k,
        {
            let idx = i + k;
            if matched && hay[idx] != needle[k] {
                assert(hay@.subrange(i as int, i + n)[k as int] != needle@[k as int]);
                matched = false;
            }
            k = k + 1;
        }
        if matched {
            assert(hay@.subrange(i as int, i + n) =~= needle@);
            return Some(i);
        }
        if i == hay.len() - n {
            assert(find_from(hay@, needle@, (i + 1) as nat) is None);
            return None;
        }
        i = i + 1;
    }
    None
}

/// The position of the first character at or after `from` that is not
/// whitespace, or `end` if there is none before it.
pub fn skip_whitespace(v: &Vec<char>, from: usize, end: usize) -> (r: usize)
    requires
        from <= end <= v@.len(),
    ensures
        from <= r <= end,
        v@.subrange(r as int, end as int) == trim_start(v@.subrange(from as int, end as int)),
{
    let mut i = from;
    while i < end && is_whitespace(v[i])
        invariant
            from <= i <= end <= v@.len(),
            trim_start(v@.subrange(i as int, end as int)) == trim_start(v@.subrange(from as int, end as int)),
        decreases end - i,
    {
        assert(v@.subrange(i as int, end as int).drop_first() =~= v@.subrange(i + 1, end as int));
        i = i + 1;
    }
    if i < end {
        assert(v@.subrange(i as int, end as int)[0] == v@[i as int]);
    }
    i
}

/// The position just past the ASCII digits that begin `v[from..end]`.
pub fn digits_end(v: &Vec<char>, from: usize, end: usize) -> (r: usize)
    requires
        from <= end <= v@.len(),
    ensures
        from <= r <= end,
        v@.subrange(from as int, r as int) == leading_digits(v@.subrange(from as int, end as int)),
{
    let mut i = from;
    while i < end && '0' <= v[i] && v[i] <= '9'
        invariant
            from <= i <= end <= v@.len(),
            leading_digits(v@.subrange(from as int, end as int))
                == v@.subrange(from as int, i as int) + leading_digits(v@.subrange(i as int, end as int)),
        decreases end - i,
    {
        let ghost t = v@.subrange(i as int, end as int);
        assert(t.drop_first() =~= v@.subrange(i + 1, end as int));
        assert(v@.subrange(from as int, i + 1) =~= v@.subrange(from as int, i as int) + seq![v@[i as int]]);
        i = i + 1;
    }
    if i < end {
        assert(v@.subrange(i as int, end as int)[0] == v@[i as int]);
    }
    assert(leading_digits(v@.subrange(i as int, end as int)) =~= Seq::<char>::empty());
    assert(v@.subrange(from as int, i as int) + Seq::<char>::empty() =~= v@.subrange(from as int, i as int));
    i
}

/// Appends `n` in decimal, right-aligned in a field of `width` characters.
pub fn append_padded(s: &mut String, n: u64, width: usize)
    ensures
        final(s)@ == old(s)@ + pad_left(decimal(n as nat), width as nat),
{
    let d = decimal_string(n);
    let len = d.unicode_len();
    let ghost start = s@;
    if len < width {
        let mut k: usize = 0;
        while k < width - len
            invariant
                k <= width - len,
                len < width,
                s@ == start + Seq::new(k as nat, |i: int| ' '),
            decreases width - len - k,
        {
            push_char(s, ' ');
            assert(s@ =~= start + Seq::new((k + 1) as nat, |i: int| ' '));
            k = k + 1;
        }
    }
    s.append(d.as_str());
    assert(s@ =~= start + pad_left(decimal(n as nat), width as nat));
}

} // verus!

verus! {

/// `s` without its trailing whitespace.
pub open spec fn trim_end(s: Seq<char>) -> Seq<char>
    decreases s.len(),
{
    if s.len() > 0 && is_ws(s.last()) {
        trim_end(s.drop_last())
    } else {
        s
    }
}

/// `s` without leading and trailing whitespace, as `str::trim` gives it.
pub open spec fn trim(s: Seq<char>) -> Seq<char> {
    trim_end(trim_start(s))
}

/// `s` begins with `prefix`.
pub open spec fn starts_with(s: Seq<char>, prefix: Seq<char>) -> bool {
    s.len() >= prefix.len() && s.take(prefix.len() as int) == prefix
}

/// The first word of `s` read as a number.
pub open spec fn first_token_u64(s: Seq<char>) -> Option<u64> {
    if tokens_of(s).len() == 0 {
        None
    } else {
        parse_u64_spec(tokens_of(s)[0])
    }
}

/// `a + b`, or the largest `u64` when the sum does not fit.
pub open spec fn sat_add(a: u64, b: u64) -> u64 {
    if a + b > u64::MAX { u64::MAX } else { (a + b) as u64 }
}

/// `a - b`, or zero when `b` is larger.
pub open spec fn sat_sub(a: u64, b: u64) -> u64 {
    if a >= b { (a - b) as u64 } else { 0 }
}

/// The end of `v[from..end]` once its trailing whitespace is dropped.
pub fn trim_end_pos(v: &Vec<char>, from: usize, end: usize) -> (r: usize)
    requires
        from <= end <= v@.len(),
    ensures
        from <= r <= end,
        v@.subrange(from as int, r as int) == trim_end(v@.subrange(from as int, end as int)),
{
    let mut e = end;
    while e > from && is_whitespace(v[e - 1])
        invariant
            from <= e <= end <= v@.len(),
            trim_end(v@.subrange(from as int, e as int)) == trim_end(v@.subrange(from as int, end as int)),
        decreases e,
    {
        assert(v@.subrange(from as int, e as int).drop_last() =~= v@.subrange(from as int, e - 1));
        e = e - 1;
    }
    if e > from {
        assert(v@.subrange(from as int, e as int).last() == v@[e - 1]);
    }
    e
}

/// The bounds of `v[from..end]` once leading and trailing whitespace is dropped.
pub fn trim_bounds(v: &Vec<char>, from: usize, end: usize) -> (r: (usize, usize))
    requires
        from <= end <= v@.len(),
    ensures
        from <= r.0 <= r.1 <= end,
        v@.subrange(r.0 as int, r.1 as int) == trim(v@.subrange(from as int, end as int)),
{
    let s = skip_whitespace(v, from, end);
    let e = trim_end_pos(v, s, end);
    (s, e)
}

/// Whether `v[from..end]` begins with `prefix`.
pub fn starts_with_at(v: &Vec<char>, from: usize, end: usize, prefix: &Vec<char>) -> (r: bool)
    requires
        from <= end <= v@.len(),
    ensures
        r == starts_with(v@.subrange(from as int, end as int), prefix@),
{
    let ghost s = v@.subrange(from as int, end as int);
    if end - from < prefix.len() {
        return false;
    }
    let mut k: usize = 0;
    while k < prefix.len()
        invariant
            k <= prefix@.len(),
            from + prefix@.len() <= end,
            end <= v@.len(),
            s == v@.subrange(from as int, end as int),
            forall|j: int| 0 <= j < k ==> s[j] == prefix@[j],
        decreases prefix@.len() - k,
    {
        if v[from + k] != prefix[k] {
            assert(s.take(prefix@.len() as int)[k as int] != prefix@[k as int]);
            return false;
        }
        k = k + 1;
    }
    assert(s.take(prefix@.len() as int) =~= prefix@);
    true
}

/// The first word of `v[from..end]` read as a number.
pub fn first_token_u64_at(v: &Vec<char>, from: usize, end: usize) -> (r: Option<u64>)
    requires
        from <= end <= v@.len(),
    ensures
        r == first_token_u64(v@.subrange(from as int, end as int)),
{
    let toks = token_bounds(v, from, end);
    if toks.len() == 0 {
        None
    } else {
        parse_u64(v, toks[0].0, toks[0].1)
    }
}

} // verus!

verus! {

/// Appending text without line feeds extends the unfinished line and
/// completes no line.
pub proof fn lemma_lines_append_no_newline(s: Seq<char>, t: Seq<char>)
    requires
        !t.contains('\n'),
    ensures
        open_line(s + t) == open_line(s) + t,
        closed_lines(s + t) == closed_lines(s),
    decreases t.len(),
{
    if t.len() == 0 {
        assert(s + t =~= s);
        assert(open_line(s) + t =~= open_line(s));
    } else {
        let t0 = t.drop_last();
        assert(!t0.contains('\n')) by {
            if t0.contains('\n') {
                let i = choose|i: int| 0 <= i < t0.len() && t0[i] == '\n';
                assert(t[i] == '\n');
            }
        }
        assert(t.last() != '\n') by {
            assert(t[t.len() - 1] == t.last());
        }
        lemma_lines_append_no_newline(s, t0);
        assert((s + t).drop_last() =~= s + t0);
        assert((s + t).last() == t.last());
        assert(open_line(s + t) =~= open_line(s) + t);
    }
}

/// Joining lines with line feeds and splitting the result into lines gives
/// the lines back, as long as no line holds a line feed, no line but the
/// last ends with a carriage return, and the last line is not empty.
pub proof fn lemma_lines_of_join(ls: Seq<Seq<char>>)
    requires
        forall|i: int| 0 <= i < ls.len() ==> !(#[trigger] ls[i]).contains('\n'),
        forall|i: int| 0 <= i < ls.len() - 1 ==> !((#[trigger] ls[i]).len() > 0 && ls[i].last() == '\r'),
        ls.len() > 0 ==> ls.last().len() > 0,
    ensures
        lines_of(join_with(ls, "\n"@)) == ls,
{
    reveal_strlit("\n");
    assert("\n"@ =~= seq!['\n']);
    if ls.len() == 0 {
        assert(join_with(ls, "\n"@) =~= Seq::<char>::empty());
        assert(lines_of(Seq::<char>::empty()) =~= ls);
    } else {
        lemma_join_prefix_lines(ls, ls.len() as nat);
        assert(ls.take(ls.len() as int) =~= ls);
        let j = join_with(ls, "\n"@);
        assert(open_line(j) == ls.last());
        assert(closed_lines(j) == ls.take(ls.len() - 1));
        assert(lines_of(j) =~= ls.take(ls.len() - 1).push(ls.last()));
        assert(ls.take(ls.len() - 1).push(ls.last()) =~= ls);
    }
}

/// The first `k` lines, joined: the last of them is the unfinished line and
/// the others are complete.
proof fn lemma_join_prefix_lines(ls: Seq<Seq<char>>, k: nat)
    requires
        1 <= k <= ls.len(),
        forall|i: int| 0 <= i < ls.len() ==> !(#[trigger] ls[i]).contains('\n'),
        forall|i: int| 0 <= i < ls.len() - 1 ==> !((#[trigger] ls[i]).len() > 0 && ls[i].last() == '\r'),
        "\n"@ == seq!['\n'],
    ensures
        open_line(join_with(ls.take(k as int), "\n"@)) == ls[k - 1],
        closed_lines(join_with(ls.take(k as int), "\n"@)) == ls.take(k - 1),
    decreases k,
{
    let p = ls.take(k as int);
    if k == 1 {
        assert(join_with(p, "\n"@) == p[0]);
        lemma_lines_append_no_newline(Seq::<char>::empty(), ls[0]);
        assert(Seq::<char>::empty() + ls[0] =~= ls[0]);
        assert(open_line(Seq::<char>::empty()) =~= Seq::<char>::empty());
        assert(Seq::<char>::empty() + ls[0] =~= ls[0]);
        assert(ls.take(0) =~= closed_lines(Seq::<char>::empty()));
    } else {
        lemma_join_prefix_lines(ls, (k - 1) as nat);
        let q = ls.take(k - 1);
        assert(p.drop_last() =~= q);
        let jq = join_with(q, "\n"@);
        let jn = jq.push('\n');
        assert(jn.drop_last() =~= jq);
        assert(open_line(jn) =~= Seq::<char>::empty());
        assert(closed_lines(jn) == closed_lines(jq).push(strip_cr(open_line(jq))));
        assert(strip_cr(ls[k - 2]) == ls[k - 2]);
        assert(closed_lines(jq).push(ls[k - 2]) =~= ls.take(k - 1));
        assert(join_with(p, "\n"@) =~= jn + ls[k - 1]);
        lemma_lines_append_no_newline(jn, ls[k - 1]);
        assert(Seq::<char>::empty() + ls[k - 1] =~= ls[k - 1]);
    }
}

/// The complete lines of `ls`, each followed by a line feed.
spec fn terminated(ls: Seq<Seq<char>>) -> Seq<char>
    decreases ls.len(),
{
    if ls.len() == 0 {
        seq![]
    } else {
        terminated(ls.drop_last()) + ls.last() + seq!['\n']
    }
}

/// The unfinished line ends with the text's last character, if any.
proof fn lemma_open_line_last(s: Seq<char>)
    ensures
        open_line(s).len() > 0 ==> s.len() > 0 && open_line(s).last() == s.last(),
        open_line(s).len() == 0 ==> s.len() == 0 || s.last() == '\n',
{
}

/// Text without carriage returns is its complete lines, each with its line
/// feed, followed by the unfinished line.
proof fn lemma_text_is_its_lines(s: Seq<char>)
    requires
        !s.contains('\r'),
    ensures
        s == terminated(closed_lines(s)) + open_line(s),
    decreases s.len(),
{
    if s.len() == 0 {
        assert(terminated(closed_lines(s)) + open_line(s) =~= s);
    } else {
        let p = s.drop_last();
        assert(!p.contains('\r')) by {
            if p.contains('\r') {
                let i = choose|i: int| 0 <= i < p.len() && p[i] == '\r';
                assert(s[i] == '\r');
            }
        }
        lemma_text_is_its_lines(p);
        assert(s =~= p.push(s.last()));
        if s.last() == '\n' {
            lemma_open_line_last(p);
            if open_line(p).len() > 0 {
                assert(p[p.len() - 1] == p.last());
                assert(s[p.len() - 1] == p.last());
            }
            assert(strip_cr(open_line(p)) == open_line(p));
            let c = closed_lines(s);
            assert(c == closed_lines(p).push(open_line(p)));
            assert(c.drop_last() =~= closed_lines(p));
            assert(terminated(c) == terminated(closed_lines(p)) + open_line(p) + seq!['\n']);
            assert(terminated(c) + open_line(s) =~= s);
        } else {
            assert(open_line(s) == open_line(p).push(s.last()));
            assert(terminated(closed_lines(s)) + open_line(s) =~= s);
        }
    }
}

/// Lines each followed by a line feed are the lines joined, plus one more.
proof fn lemma_terminated_join(ls: Seq<Seq<char>>)
    requires
        ls.len() > 0,
        "\n"@ == seq!['\n'],
    ensures
        terminated(ls) == join_with(ls, "\n"@) + seq!['\n'],
    decreases ls.len(),
{
    if ls.len() == 1 {
        assert(ls.drop_last() =~= Seq::<Seq<char>>::empty());
        assert(ls.last() == ls[0]);
        assert(terminated(ls.drop_last()) =~= Seq::<char>::empty());
        assert(terminated(ls) =~= join_with(ls, "\n"@) + seq!['\n']);
    } else {
        let d = ls.drop_last();
        lemma_terminated_join(d);
        assert(terminated(ls) == terminated(d) + ls.last() + seq!['\n']);
        assert(join_with(ls, "\n"@) == join_with(d, "\n"@) + "\n"@ + ls.last());
        assert(terminated(ls) =~= join_with(ls, "\n"@) + seq!['\n']);
    }
}

/// Splitting text into lines and joining them again with line feeds gives
/// the text back, as long as it holds no carriage return and does not end
/// with a line feed.
pub proof fn lemma_join_of_lines(s: Seq<char>)
    requires
        !s.contains('\r'),
        s.len() == 0 || s.last() != '\n',
    ensures
        join_with(lines_of(s), "\n"@) == s,
{
    reveal_strlit("\n");
    assert("\n"@ =~= seq!['\n']);
    lemma_text_is_its_lines(s);
    lemma_open_line_last(s);
    let c = closed_lines(s);
    let o = open_line(s);
    if o.len() == 0 {
        assert(s.len() == 0);
        assert(c =~= Seq::<Seq<char>>::empty()) by {
            assert(terminated(c).len() == 0);
            if c.len() > 0 {
                assert(terminated(c).len() > 0);
            }
        }
        assert(lines_of(s) == c);
        assert(join_with(c, "\n"@) =~= s);
    } else {
        let ls = c.push(o);
        assert(lines_of(s) == ls);
        assert(ls.drop_last() =~= c);
        assert(ls.last() == o);
        if c.len() == 0 {
            assert(terminated(c) =~= Seq::<char>::empty());
            assert(join_with(ls, "\n"@) == ls[0]);
            assert(s =~= o);
        } else {
            lemma_terminated_join(c);
            assert(join_with(ls, "\n"@) == join_with(c, "\n"@) + "\n"@ + o);
            assert(join_with(ls, "\n"@) =~= s);
        }
    }
}

/// Every character of a decimal numeral is a digit, and reading it back
/// gives the number.
pub proof fn lemma_decimal_digits(n: nat)
    ensures
        all_digits(decimal(n)),
        digits_value(decimal(n)) == n,
        decimal(n).len() > 0,
    decreases n,
{
    if n >= 10 {
        lemma_decimal_digits(n / 10);
        let d = decimal(n / 10);
        let e = d.push(digit_char(n % 10));
        assert(e.drop_last() =~= d);
        assert((digit_char(n % 10) as int) == (n % 10) + 48);
        assert(e.last() == digit_char(n % 10));
        assert(decimal(n) == e);
        assert(digits_value(e) == digits_value(d) * 10 + (n % 10));
        assert(n == (n / 10) * 10 + n % 10);
        assert forall|i: int| 0 <= i < e.len() implies is_digit(#[trigger] e[i]) by {
            if i < d.len() {
                assert(e[i] == d[i]);
            }
        }
    } else {
        assert(decimal(n) =~= seq![digit_char(n)]);
        assert((digit_char(n) as int) == n + 48);
        assert(digits_value(decimal(n)) == digits_value(decimal(n).drop_last()) * 10 + n);
        assert(decimal(n).drop_last() =~= Seq::<char>::empty());
    }
}

/// Parsing a number written in decimal gives the number back: the numbers
/// this library prints are the numbers it reads.
pub proof fn lemma_parse_decimal(n: u64)
    ensures
        parse_u64_spec(decimal(n as nat)) == Some(n),
{
    lemma_decimal_digits(n as nat);
    let d = decimal(n as nat);
    assert(is_digit(d[0]));
    assert(unsigned_digits(d) == d);
}

} // verus!
