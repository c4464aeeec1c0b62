//! Character sequences: the mathematical operations that the parsers are
//! stated in, and the executable functions that compute them.
use vstd::prelude::*;

verus! {

/// `String::push` appends one character at the end and changes nothing else.
pub assume_specification[ String::push ](s: &mut String, ch: char)
    ensures
        final(s)@ == old(s)@.push(ch),
;

/// The views of a sequence of character vectors.
pub open spec fn views(v: Seq<Vec<char>>) -> Seq<Seq<char>> {
    Seq::new(v.len(), |i: int| v[i]@)
}

/// The views of a sequence of strings.
pub open spec fn string_views(v: Seq<String>) -> Seq<Seq<char>> {
    Seq::new(v.len(), |i: int| v[i]@)
}

/// The view of an optional string.
pub open spec fn opt_view(o: Option<String>) -> Option<Seq<char>> {
    match o {
        Some(s) => Some(s@),
        None => None,
    }
}

/// Unicode white space: the characters that trimming removes.
pub open spec fn is_space(c: char) -> bool {
    ||| ('\u{9}' <= c && c <= '\u{d}')
    ||| c == ' '
    ||| c == '\u{85}'
    ||| c == '\u{a0}'
    ||| c == '\u{1680}'
    ||| ('\u{2000}' <= c && c <= '\u{200a}')
    ||| c == '\u{2028}'
    ||| c == '\u{2029}'
    ||| c == '\u{202f}'
    ||| c == '\u{205f}'
    ||| c == '\u{3000}'
}

/// An ASCII decimal digit.
pub open spec fn is_digit(c: char) -> bool {
    '0' <= c && c <= '9'
}

/// The first index at or after `i` that holds no white space, or the length.
pub open spec fn lead_spaces(s: Seq<char>, i: int) -> int
    decreases s.len() - i,
{
    if 0 <= i < s.len() && is_space(s[i]) {
        lead_spaces(s, i + 1)
    } else {
        i
    }
}

/// The end of `s[lo..j]` once trailing white space is cut off.
pub open spec fn trail_spaces(s: Seq<char>, lo: int, j: int) -> int
    decreases j,
{
    if lo < j && 0 < j <= s.len() && is_space(s[j - 1]) {
        trail_spaces(s, lo, j - 1)
    } else {
        j
    }
}

/// `s` without leading and trailing white space.
pub open spec fn trim(s: Seq<char>) -> Seq<char> {
    let a = lead_spaces(s, 0);
    let b = trail_spaces(s, a, s.len() as int);
    s.subrange(a, b)
}

/// The pieces of `s[start..]` between occurrences of `sep`, where `s[start..i]`
/// is known to hold no separator. Empty pieces are kept.
pub open spec fn split_from<T>(s: Seq<T>, sep: T, start: int, i: int) -> Seq<Seq<T>>
    decreases s.len() - i,
{
    if i < 0 || i >= s.len() {
        seq![s.subrange(start, s.len() as int)]
    } else if s[i] == sep {
        seq![s.subrange(start, i)] + split_from(s, sep, i + 1, i + 1)
    } else {
        split_from(s, sep, start, i + 1)
    }
}

/// The pieces of `s` between occurrences of `sep`; one more piece than
/// separators, empty pieces included.
pub open spec fn split<T>(s: Seq<T>, sep: T) -> Seq<Seq<T>> {
    split_from(s, sep, 0, 0)
}

/// `parts` without its empty members, order kept.
pub open spec fn drop_empty<T>(parts: Seq<Seq<T>>) -> Seq<Seq<T>>
    decreases parts.len(),
{
    if parts.len() == 0 {
        Seq::empty()
    } else if parts.last().len() > 0 {
        drop_empty(parts.drop_last()).push(parts.last())
    } else {
        drop_empty(parts.drop_last())
    }
}

/// `pat` stands in `s` at index `i`.
pub open spec fn matches_at<T>(s: Seq<T>, i: int, pat: Seq<T>) -> bool {
    0 <= i && i + pat.len() <= s.len() && s.subrange(i, i + pat.len()) == pat
}

/// `pat` occurs somewhere in `s`.
pub open spec fn contains_seq<T>(s: Seq<T>, pat: Seq<T>) -> bool {
    exists|i: int| matches_at(s, i, pat)
}

/// The first index at or after `i` where `pat` stands in `s`; an index
/// beyond the length of `s` where there is none.
pub open spec fn first_match<T>(s: Seq<T>, pat: Seq<T>, i: int) -> int
    decreases s.len() + 1 - i,
{
    if i < 0 || i > s.len() || matches_at(s, i, pat) {
        i
    } else {
        first_match(s, pat, i + 1)
    }
}

/// `s` begins with `pat`.
pub open spec fn starts_with<T>(s: Seq<T>, pat: Seq<T>) -> bool {
    matches_at(s, 0, pat)
}

/// `s` ends with `pat`.
pub open spec fn ends_with<T>(s: Seq<T>, pat: Seq<T>) -> bool {
    matches_at(s, s.len() - pat.len(), pat)
}

/// The first index at or after `i` where `s` holds `c`, or the length.
pub open spec fn index_of<T>(s: Seq<T>, c: T, i: int) -> int
    decreases s.len() - i,
{
    if 0 <= i < s.len() && s[i] != c {
        index_of(s, c, i + 1)
    } else {
        i
    }
}

/// `s[i..]` with every occurrence of the non-empty `pat` taken out, scanning
/// from the left without overlap.
pub open spec fn remove_all(s: Seq<char>, pat: Seq<char>, i: int) -> Seq<char>
    decreases s.len() - i,
{
    if i < 0 || i >= s.len() {
        Seq::empty()
    } else if pat.len() > 0 && matches_at(s, i, pat) {
        remove_all(s, pat, i + pat.len())
    } else {
        seq![s[i]] + remove_all(s, pat, i + 1)
    }
}

/// The members of `parts` written one after another with `sep` between them.
pub open spec fn join(parts: Seq<Seq<char>>, sep: Seq<char>) -> Seq<char>
    decreases parts.len(),
{
    if parts.len() == 0 {
        Seq::empty()
    } else if parts.len() == 1 {
        parts[0]
    } else {
        join(parts.drop_last(), sep) + sep + parts.last()
    }
}

/// `line` without one trailing carriage return.
pub open spec fn strip_cr(line: Seq<char>) -> Seq<char> {
    if line.len() > 0 && line.last() == '\r' {
        line.drop_last()
    } else {
        line
    }
}

/// The lines of `s`: each piece that a line feed ends, without the carriage
/// return in front of that line feed, and then what follows the last line
/// feed, as it is, unless it is empty.
pub open spec fn lines(s: Seq<char>) -> Seq<Seq<char>> {
    let pieces = split(s, '\n');
    let ended = Seq::new((pieces.len() - 1) as nat, |i: int| strip_cr(pieces[i]));
    if pieces.last().len() == 0 {
        ended
    } else {
        ended.push(pieces.last())
    }
}

/// What `f` makes of each of `items`, in order, where it makes anything.
pub open spec fn collect<A>(items: Seq<Seq<char>>, f: spec_fn(Seq<char>) -> Option<A>) -> Seq<A>
    decreases items.len(),
{
    if items.len() == 0 {
        Seq::empty()
    } else {
        match f(items.last()) {
            Some(a) => collect(items.drop_last(), f).push(a),
            None => collect(items.drop_last(), f),
        }
    }
}

/// The characters of `s`, in order.
pub fn chars_of(s: &str) -> (v: Vec<char>)
    ensures
        v@ == s@,
{
    let mut v: Vec<char> = Vec::new();
    for c in it: s.chars()
        invariant
            it.seq() == s@,
            v@ == it.seq().take(it.index()),
    {
        v.push(c);
    }
    v
}

/// The string made of the characters of `v`.
pub fn string_of(v: &Vec<char>) -> (s: String)
    ensures
        s@ == v@,
{
    let mut s = String::new();
    let mut i: usize = 0;
    while i < v.len()
        invariant
            i <= v.len(),
            s@ == v@.take(i as int),
        decreases v.len() - i,
    {
        s.push(v[i]);
        i += 1;
    }
    s
}

/// Whether `c` is white space.
pub fn is_space_char(c: char) -> (b: bool)
    ensures
        b == is_space(c),
{
    ('\u{9}' <= c && c <= '\u{d}') || c == ' ' || c == '\u{85}' || c == '\u{a0}' || c
        == '\u{1680}' || ('\u{2000}' <= c && c <= '\u{200a}') || c == '\u{2028}' || c
        == '\u{2029}' || c == '\u{202f}' || c == '\u{205f}' || c == '\u{3000}'
}

/// Whether `c` is an ASCII decimal digit.
pub fn is_digit_char(c: char) -> (b: bool)
    ensures
        b == is_digit(c),
{
    '0' <= c && c <= '9'
}

/// A copy of `s[lo..hi]`.
pub fn copy_range(s: &Vec<char>, lo: usize, hi: usize) -> (r: Vec<char>)
    requires
        lo <= hi <= s.len(),
    ensures
        r@ == s@.subrange(lo as int, hi as int),
{
    let mut r: Vec<char> = Vec::new();
    let mut i: usize = lo;
    while i < hi
        invariant
            lo <= i <= hi <= s.len(),
            r@ == s@.subrange(lo as int, i as int),
        decreases hi - i,
    {
        r.push(s[i]);
        i += 1;
    }
    r
}

/// Whether `a` and `b` hold the same characters.
pub fn eq_chars(a: &Vec<char>, b: &Vec<char>) -> (r: bool)
    ensures
        r == (a@ == b@),
{
    if a.len() != b.len() {
        return false;
    }
    let mut i: usize = 0;
    while i < a.len()
        invariant
            i <= a.len() == b.len(),
            a@.take(i as int) == b@.take(i as int),
        decreases a.len() - i,
    {
        if a[i] != b[i] {
            return false;
        }
        assert(a@.take(i + 1) == a@.take(i as int).push(a@[i as int]));
        assert(b@.take(i + 1) == b@.take(i as int).push(b@[i as int]));
        i += 1;
    }
    assert(a@.take(a@.len() as int) == a@);
    assert(b@.take(b@.len() as int) == b@);
    true
}

/// `s` without leading and trailing white space.
pub fn trim_chars(s: &Vec<char>) -> (r: Vec<char>)
    ensures
        r@ == trim(s@),
{
    let mut a: usize = 0;
    while a < s.len() && is_space_char(s[a])
        invariant
            a <= s.len(),
            lead_spaces(s@, 0) == lead_spaces(s@, a as int),
        decreases s.len() - a,
    {
        a += 1;
    }
    let mut b: usize = s.len();
    while a < b && is_space_char(s[b - 1])
        invariant
            a <= b <= s.len(),
            trail_spaces(s@, a as int, s@.len() as int) == trail_spaces(s@, a as int, b as int),
        decreases b,
    {
        b -= 1;
    }
    copy_range(s, a, b)
}

/// Whether `pat` stands in `s` at index `i`.
pub fn matches_at_chars(s: &Vec<char>, i: usize, pat: &Vec<char>) -> (b: bool)
    ensures
        b == matches_at(s@, i as int, pat@),
{
    if pat.len() > s.len() || i > s.len() - pat.len() {
        return false;
    }
    let mut k: usize = 0;
    while k < pat.len()
        invariant
            k <= pat.len(),
            i + pat.len() <= s.len(),
            s@.subrange(i as int, i + k) == pat@.take(k as int),
        decreases pat.len() - k,
    {
        if s[i + k] != pat[k] {
            assert(s@.subrange(i as int, i + pat.len())[k as int] == s@[i + k]);
            return false;
        }
        assert(s@.subrange(i as int, i + k + 1) == s@.subrange(i as int, i + k).push(s@[i + k]));
        assert(pat@.take(k + 1) == pat@.take(k as int).push(pat@[k as int]));
        k += 1;
    }
    assert(pat@.take(pat@.len() as int) == pat@);
    true
}

/// The first index where `pat` stands in `s`, if there is one.
pub fn find_chars(s: &Vec<char>, pat: &Vec<char>) -> (r: Option<usize>)
    ensures
        match r {
            Some(k) => matches_at(s@, k as int, pat@) && k == first_match(s@, pat@, 0)
                && forall|j: int| 0 <= j < k ==> !matches_at(s@, j, pat@),
            None => !contains_seq(s@, pat@) && first_match(s@, pat@, 0) > s@.len(),
        },
{
    let mut i: usize = 0;
    while i <= s.len()
        invariant
            i <= s.len() + 1,
            forall|j: int| 0 <= j < i ==> !matches_at(s@, j, pat@),
            first_match(s@, pat@, 0) == first_match(s@, pat@, i as int),
        decreases s.len() + 1 - i,
    {
        if matches_at_chars(s, i, pat) {
            return Some(i);
        }
        if i == s.len() {
            assert(first_match(s@, pat@, i + 1) == i + 1);
            return None;
        }
        i += 1;
    }
    None
}

/// Whether `pat` occurs somewhere in `s`.
pub fn contains_chars(s: &Vec<char>, pat: &Vec<char>) -> (b: bool)
    ensures
        b == contains_seq(s@, pat@),
{
    find_chars(s, pat).is_some()
}

/// Whether `s` begins with `pat`.
pub fn starts_with_chars(s: &Vec<char>, pat: &Vec<char>) -> (b: bool)
    ensures
        b == starts_with(s@, pat@),
{
    matches_at_chars(s, 0, pat)
}

/// Whether `s` ends with `pat`.
pub fn ends_with_chars(s: &Vec<char>, pat: &Vec<char>) -> (b: bool)
    ensures
        b == ends_with(s@, pat@),
{
    if pat.len() > s.len() {
        return false;
    }
    matches_at_chars(s, s.len() - pat.len(), pat)
}

/// The first index at or after `from` where `s` holds `c`, or the length.
pub fn index_of_char(s: &Vec<char>, c: char, from: usize) -> (r: usize)
    requires
        from <= s.len(),
    ensures
        r == index_of(s@, c, from as int),
        from <= r <= s.len(),
        r < s.len() ==> s@[r as int] == c,
        forall|j: int| from <= j < r ==> s@[j] != c,
{
    let mut i: usize = from;
    while i < s.len() && s[i] != c
        invariant
            from <= i <= s.len(),
            index_of(s@, c, from as int) == index_of(s@, c, i as int),
            forall|j: int| from <= j < i ==> s@[j] != c,
        decreases s.len() - i,
    {
        i += 1;
    }
    i
}

/// `s` with every occurrence of `pat` taken out.
pub fn remove_all_chars(s: &Vec<char>, pat: &Vec<char>) -> (r: Vec<char>)
    ensures
        r@ == remove_all(s@, pat@, 0),
{
    let mut r: Vec<char> = Vec::new();
    let mut i: usize = 0;
    while i < s.len()
        invariant
            i <= s.len(),
            remove_all(s@, pat@, 0) == r@ + remove_all(s@, pat@, i as int),
        decreases s.len() - i,
    {
        if pat.len() > 0 && matches_at_chars(s, i, pat) {
            i += pat.len();
        } else {
            let ghost before = r@;
            r.push(s[i]);
            assert(r@ + remove_all(s@, pat@, i + 1) == before + (seq![s@[i as int]] + remove_all(
                s@,
                pat@,
                i + 1,
            )));
            i += 1;
        }
    }
    assert(r@ + Seq::<char>::empty() == r@);
    r
}

/// The pieces of `s` between occurrences of `sep`, empty pieces included.
pub fn split_chars(s: &Vec<char>, sep: char) -> (parts: Vec<Vec<char>>)
    ensures
        views(parts@) == split(s@, sep),
        parts@.len() >= 1,
{
    let mut parts: Vec<Vec<char>> = Vec::new();
    let mut cur: Vec<char> = Vec::new();
    let mut start: usize = 0;
    let mut i: usize = 0;
    while i < s.len()
        invariant
            start <= i <= s.len(),
            cur@ == s@.subrange(start as int, i as int),
            split(s@, sep) == views(parts@) + split_from(s@, sep, start as int, i as int),
        decreases s.len() - i,
    {
        if s[i] == sep {
            let ghost before = views(parts@);
            parts.push(cur);
            assert(views(parts@) == before.push(s@.subrange(start as int, i as int)));
            assert(views(parts@) + split_from(s@, sep, i + 1, i + 1) == before + (seq![
                s@.subrange(start as int, i as int),
            ] + split_from(s@, sep, i + 1, i + 1)));
            cur = Vec::new();
            start = i + 1;
        } else {
            cur.push(s[i]);
        }
        i += 1;
    }
    let ghost before = views(parts@);
    parts.push(cur);
    assert(views(parts@) == before + seq![s@.subrange(start as int, s@.len() as int)]);
    parts
}

/// `parts` without its empty members, order kept.
pub fn keep_nonempty(parts: Vec<Vec<char>>) -> (kept: Vec<Vec<char>>)
    ensures
        views(kept@) == drop_empty(views(parts@)),
{
    let mut kept: Vec<Vec<char>> = Vec::new();
    let mut i: usize = 0;
    while i < parts.len()
        invariant
            i <= parts.len(),
            views(kept@) == drop_empty(views(parts@).take(i as int)),
        decreases parts.len() - i,
    {
        let ghost before = views(kept@);
        let ghost next = views(parts@).take(i + 1);
        assert(next.drop_last() == views(parts@).take(i as int));
        assert(next.last() == parts@[i as int]@);
        if parts[i].len() > 0 {
            kept.push(parts[i].clone());
            assert(views(kept@) == before.push(parts@[i as int]@));
        }
        i += 1;
    }
    assert(views(parts@).take(parts@.len() as int) == views(parts@));
    kept
}

/// The members of `parts` written one after another with `sep` between them.
pub fn join_chars(parts: &Vec<Vec<char>>, sep: &Vec<char>) -> (r: Vec<char>)
    ensures
        r@ == join(views(parts@), sep@),
{
    let mut r: Vec<char> = Vec::new();
    let mut i: usize = 0;
    while i < parts.len()
        invariant
            i <= parts.len(),
            r@ == join(views(parts@).take(i as int), sep@),
        decreases parts.len() - i,
    {
        let ghost next = views(parts@).take(i + 1);
        assert(next.drop_last() == views(parts@).take(i as int));
        assert(next.last() == parts@[i as int]@);
        if i > 0 {
            append_chars(&mut r, sep);
        }
        append_chars(&mut r, &parts[i]);
        assert(i == 0 ==> r@ == next[0]);
        i += 1;
    }
    assert(views(parts@).take(parts@.len() as int) == views(parts@));
    r
}

/// Appends the characters of `tail` to `r`.
pub fn append_chars(r: &mut Vec<char>, tail: &Vec<char>)
    ensures
        final(r)@ == old(r)@ + tail@,
{
    let mut k: usize = 0;
    while k < tail.len()
        invariant
            k <= tail.len(),
            r@ == old(r)@ + tail@.take(k as int),
        decreases tail.len() - k,
    {
        r.push(tail[k]);
        assert(tail@.take(k + 1) == tail@.take(k as int).push(tail@[k as int]));
        k += 1;
    }
    assert(tail@.take(tail@.len() as int) == tail@);
}

/// The lines of `s`.
pub fn lines_of(s: &Vec<char>) -> (out: Vec<Vec<char>>)
    ensures
        views(out@) == lines(s@),
{
    let pieces = split_chars(s, '\n');
    let n: usize = pieces.len() - 1;
    let mut out: Vec<Vec<char>> = Vec::new();
    let mut i: usize = 0;
    while i < n
        invariant
            i <= n,
            n + 1 == pieces.len(),
            out@.len() == i,
            forall|j: int| 0 <= j < i ==> out@[j]@ == strip_cr(#[trigger] pieces@[j]@),
        decreases n - i,
    {
        let piece = &pieces[i];
        let m: usize = piece.len();
        let line = if m > 0 && piece[m - 1] == '\r' {
            copy_range(piece, 0, m - 1)
        } else {
            copy_range(piece, 0, m)
        };
        assert(piece@.subrange(0, m as int) == piece@);
        out.push(line);
        i += 1;
    }
    if pieces[n].len() > 0 {
        out.push(pieces[n].clone());
    }
    assert(views(out@) =~= lines(s@));
    out
}

/// `index_of` finds the first occurrence: nothing before it is `c`, and it is
/// `c` unless it is the length.
pub proof fn lemma_index_of<T>(s: Seq<T>, c: T, i: int)
    requires
        0 <= i <= s.len(),
    ensures
        i <= index_of(s, c, i) <= s.len(),
        index_of(s, c, i) < s.len() ==> s[index_of(s, c, i)] == c,
        forall|j: int| i <= j < index_of(s, c, i) ==> s[j] != c,
    decreases s.len() - i,
{
    if i < s.len() && s[i] != c {
        lemma_index_of(s, c, i + 1);
    }
}

/// Where `s[i..n]` holds no separator, scanning from `i` and from `n` give
/// the same pieces.
pub proof fn lemma_split_scan<T>(s: Seq<T>, sep: T, start: int, i: int, n: int)
    requires
        0 <= i <= n <= s.len(),
        forall|j: int| i <= j < n ==> s[j] != sep,
    ensures
        split_from(s, sep, start, i) == split_from(s, sep, start, n),
    decreases n - i,
{
    if i < n {
        lemma_split_scan(s, sep, start, i + 1, n);
    }
}

/// The pieces of a suffix are the pieces of the whole from that index on.
pub proof fn lemma_split_shift<T>(s: Seq<T>, sep: T, d: int, start: int, i: int)
    requires
        0 <= d,
        0 <= start <= i <= s.len() - d,
    ensures
        split_from(s, sep, start + d, i + d) == split_from(s.skip(d), sep, start, i),
    decreases s.len() - d - i,
{
    let y = s.skip(d);
    if i >= y.len() {
        assert(s.subrange(start + d, s.len() as int) == y.subrange(start, y.len() as int));
    } else if y[i] == sep {
        assert(s.subrange(start + d, i + d) == y.subrange(start, i));
        lemma_split_shift(s, sep, d, i + 1, i + 1);
    } else {
        lemma_split_shift(s, sep, d, start, i + 1);
    }
}

/// A text without separator is its own single piece.
pub proof fn lemma_split_unbroken<T>(s: Seq<T>, sep: T)
    requires
        forall|j: int| 0 <= j < s.len() ==> s[j] != sep,
    ensures
        split(s, sep) == seq![s],
{
    lemma_split_scan(s, sep, 0, 0, s.len() as int);
    assert(s.subrange(0, s.len() as int) == s);
}

/// The pieces of `x`, a separator and `y` are the pieces of `x` and then
/// the pieces of `y`.
pub proof fn lemma_split_concat<T>(x: Seq<T>, y: Seq<T>, sep: T, start: int, i: int)
    requires
        0 <= start <= i <= x.len(),
    ensures
        split_from(x + seq![sep] + y, sep, start, i) == split_from(x, sep, start, i) + split(
            y,
            sep,
        ),
    decreases x.len() - i,
{
    let s = x + seq![sep] + y;
    let n = x.len() as int;
    if i == n {
        assert(s[n] == sep);
        assert(s.subrange(start, n) == x.subrange(start, n));
        lemma_split_shift(s, sep, n + 1, 0, 0);
        assert(s.skip(n + 1) == y);
    } else {
        assert(s[i] == x[i]);
        if x[i] == sep {
            assert(s.subrange(start, i) == x.subrange(start, i));
            lemma_split_concat(x, y, sep, i + 1, i + 1);
            assert(seq![x.subrange(start, i)] + (split_from(x, sep, i + 1, i + 1) + split(y, sep))
                == (seq![x.subrange(start, i)] + split_from(x, sep, i + 1, i + 1)) + split(
                y,
                sep,
            ));
        } else {
            lemma_split_concat(x, y, sep, start, i + 1);
        }
    }
}

/// The pieces of `x`, a separator and `y`, where `x` holds no separator, are
/// `x` and then the pieces of `y`.
pub proof fn lemma_split_first<T>(x: Seq<T>, y: Seq<T>, sep: T)
    requires
        forall|j: int| 0 <= j < x.len() ==> x[j] != sep,
    ensures
        split(x + seq![sep] + y, sep) == seq![x] + split(y, sep),
{
    lemma_split_unbroken(x, sep);
    lemma_split_concat(x, y, sep, 0, 0);
}

/// A text with a separator in it has at least two pieces.
pub proof fn lemma_split_broken<T>(s: Seq<T>, sep: T, start: int, i: int, at: int)
    requires
        0 <= i <= at < s.len(),
        s[at] == sep,
    ensures
        split_from(s, sep, start, i).len() >= 2,
    decreases s.len() - i,
{
    if s[i] == sep {
        lemma_split_nonempty(s, sep, i + 1, i + 1);
    } else {
        lemma_split_broken(s, sep, start, i + 1, at);
    }
}

/// `first_match` finds the first occurrence: `pat` stands nowhere before it,
/// and stands at it unless it lies beyond the length.
pub proof fn lemma_first_match<T>(s: Seq<T>, pat: Seq<T>, i: int)
    requires
        0 <= i <= s.len() + 1,
    ensures
        i <= first_match(s, pat, i) <= s.len() + 1,
        first_match(s, pat, i) <= s.len() ==> matches_at(s, first_match(s, pat, i), pat),
        forall|j: int| i <= j < first_match(s, pat, i) ==> !matches_at(s, j, pat),
    decreases s.len() + 1 - i,
{
    if i <= s.len() && !matches_at(s, i, pat) {
        lemma_first_match(s, pat, i + 1);
    }
}

/// Trimming cuts off white space and nothing else: what is cut off in front
/// and behind is white space, and what is left neither begins nor ends with
/// white space.
pub proof fn lemma_trim_is_tight(s: Seq<char>)
    ensures
        ({
            let a = lead_spaces(s, 0);
            let b = trail_spaces(s, a, s.len() as int);
            &&& 0 <= a <= b <= s.len()
            &&& forall|j: int| 0 <= j < a ==> is_space(#[trigger] s[j])
            &&& forall|j: int| b <= j < s.len() ==> is_space(#[trigger] s[j])
            &&& a < b ==> !is_space(s[a]) && !is_space(s[b - 1])
        }),
{
    lemma_lead_spaces(s, 0);
    lemma_trail_spaces(s, lead_spaces(s, 0), s.len() as int);
}

/// `lead_spaces` stops at the first character that is no white space.
pub proof fn lemma_lead_spaces(s: Seq<char>, i: int)
    requires
        0 <= i <= s.len(),
    ensures
        i <= lead_spaces(s, i) <= s.len(),
        forall|j: int| i <= j < lead_spaces(s, i) ==> is_space(#[trigger] s[j]),
        lead_spaces(s, i) < s.len() ==> !is_space(s[lead_spaces(s, i)]),
    decreases s.len() - i,
{
    if i < s.len() && is_space(s[i]) {
        lemma_lead_spaces(s, i + 1);
    }
}

/// `trail_spaces` stops behind the last character that is no white space.
pub proof fn lemma_trail_spaces(s: Seq<char>, lo: int, j: int)
    requires
        0 <= lo <= j <= s.len(),
    ensures
        lo <= trail_spaces(s, lo, j) <= j,
        forall|k: int| trail_spaces(s, lo, j) <= k < j ==> is_space(#[trigger] s[k]),
        lo < trail_spaces(s, lo, j) ==> !is_space(s[trail_spaces(s, lo, j) - 1]),
    decreases j,
{
    if lo < j && is_space(s[j - 1]) {
        lemma_trail_spaces(s, lo, j - 1);
    }
}

/// No piece holds the separator.
pub proof fn lemma_split_pieces_are_clean<T>(s: Seq<T>, sep: T, start: int, i: int)
    requires
        0 <= start <= i <= s.len(),
        forall|j: int| start <= j < i ==> s[j] != sep,
    ensures
        forall|k: int, m: int|
            0 <= k < split_from(s, sep, start, i).len() && 0 <= m < split_from(
                s,
                sep,
                start,
                i,
            )[k].len() ==> (#[trigger] split_from(s, sep, start, i)[k][m]) != sep,
    decreases s.len() - i,
{
    let all = split_from(s, sep, start, i);
    if i >= s.len() {
        assert forall|k: int, m: int| 0 <= k < all.len() && 0 <= m < all[k].len() implies (
        #[trigger] all[k][m]) != sep by {
            assert(all[k][m] == s[start + m]);
        }
    } else if s[i] == sep {
        lemma_split_pieces_are_clean(s, sep, i + 1, i + 1);
        let rest = split_from(s, sep, i + 1, i + 1);
        assert forall|k: int, m: int| 0 <= k < all.len() && 0 <= m < all[k].len() implies (
        #[trigger] all[k][m]) != sep by {
            if k > 0 {
                assert(all[k] == rest[k - 1]);
                assert(all[k][m] == rest[k - 1][m]);
            } else {
                assert(all[k][m] == s[start + m]);
            }
        }
    } else {
        lemma_split_pieces_are_clean(s, sep, start, i + 1);
        let same = split_from(s, sep, start, i + 1);
        assert(all == same);
        assert forall|k: int, m: int| 0 <= k < all.len() && 0 <= m < all[k].len() implies (
        #[trigger] all[k][m]) != sep by {
            assert(all[k][m] == same[k][m]);
        }
    }
}

/// Joining with one piece more in front puts the separator behind it.
pub proof fn lemma_join_front(p: Seq<char>, rest: Seq<Seq<char>>, sep: Seq<char>)
    requires
        rest.len() >= 1,
    ensures
        join(seq![p] + rest, sep) == p + sep + join(rest, sep),
    decreases rest.len(),
{
    let all = seq![p] + rest;
    assert(all.last() == rest.last());
    assert(join(all, sep) == join(all.drop_last(), sep) + sep + all.last());
    if rest.len() == 1 {
        assert(all.drop_last() == seq![p]);
        assert(join(seq![p], sep) == p);
        assert(join(rest, sep) == rest[0]);
    } else {
        assert(join(rest, sep) == join(rest.drop_last(), sep) + sep + rest.last());
        assert(all.drop_last() == seq![p] + rest.drop_last());
        lemma_join_front(p, rest.drop_last(), sep);
        assert(p + sep + join(rest.drop_last(), sep) + sep + rest.last() == p + sep + (join(
            rest.drop_last(),
            sep,
        ) + sep + rest.last()));
    }
}

/// Splitting loses nothing: the pieces of a text, joined by the separator,
/// are the text.
pub proof fn lemma_join_split(s: Seq<char>, sep: char, start: int, i: int)
    requires
        0 <= start <= i <= s.len(),
    ensures
        join(split_from(s, sep, start, i), seq![sep]) == s.subrange(start, s.len() as int),
    decreases s.len() - i,
{
    if i >= s.len() {
    } else if s[i] == sep {
        let rest = split_from(s, sep, i + 1, i + 1);
        lemma_split_nonempty(s, sep, i + 1, i + 1);
        lemma_join_split(s, sep, i + 1, i + 1);
        lemma_join_front(s.subrange(start, i), rest, seq![sep]);
        assert(s.subrange(start, i) + seq![sep] + s.subrange(i + 1, s.len() as int)
            == s.subrange(start, s.len() as int));
    } else {
        lemma_join_split(s, sep, start, i + 1);
    }
}

/// What is left after empty members are dropped: members of the sequence,
/// none of them empty.
pub proof fn lemma_drop_empty_members<T>(parts: Seq<Seq<T>>)
    ensures
        drop_empty(parts).len() <= parts.len(),
        forall|i: int|
            0 <= i < drop_empty(parts).len() ==> (#[trigger] drop_empty(parts)[i]).len() > 0
                && parts.contains(drop_empty(parts)[i]),
    decreases parts.len(),
{
    if parts.len() > 0 {
        let rest = parts.drop_last();
        lemma_drop_empty_members(rest);
        let kept = drop_empty(parts);
        assert forall|i: int| 0 <= i < kept.len() implies (#[trigger] kept[i]).len() > 0
            && parts.contains(kept[i]) by {
            if i < drop_empty(rest).len() {
                assert(kept[i] == drop_empty(rest)[i]);
                let j = choose|j: int| 0 <= j < rest.len() && rest[j] == kept[i];
                assert(parts[j] == kept[i]);
            } else {
                assert(parts[parts.len() - 1] == kept[i]);
            }
        }
    }
}

/// No line holds a line feed.
pub proof fn lemma_lines_hold_no_line_feed(s: Seq<char>)
    ensures
        forall|k: int, m: int|
            0 <= k < lines(s).len() && 0 <= m < lines(s)[k].len() ==> (#[trigger] lines(
                s,
            )[k][m]) != '\n',
{
    lemma_split_pieces_are_clean(s, '\n', 0, 0);
    lemma_split_nonempty(s, '\n', 0, 0);
    let pieces = split(s, '\n');
    assert forall|k: int, m: int| 0 <= k < lines(s).len() && 0 <= m < lines(s)[k].len() implies (
    #[trigger] lines(s)[k][m]) != '\n' by {
        assert(lines(s)[k][m] == pieces[k][m]);
    }
}

/// Splitting always yields at least one piece.
pub proof fn lemma_split_nonempty<T>(s: Seq<T>, sep: T, start: int, i: int)
    ensures
        split_from(s, sep, start, i).len() >= 1,
    decreases s.len() - i,
{
    if i < 0 || i >= s.len() {
    } else if s[i] == sep {
        lemma_split_nonempty(s, sep, i + 1, i + 1);
    } else {
        lemma_split_nonempty(s, sep, start, i + 1);
    }
}

} // verus!
