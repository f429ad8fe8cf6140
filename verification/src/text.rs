//! Character-sequence helpers: the searching, splitting and rewriting that the
//! report does on file names, list lines and logs, stated over `Seq<char>`.
use vstd::prelude::*;

verus! {

/// `pat` occurs in `s` at index `i`.
pub open spec fn occurs_at(s: Seq<char>, pat: Seq<char>, i: int) -> bool {
    &&& 0 <= i
    &&& i + pat.len() <= s.len()
    &&& s.subrange(i, i + pat.len()) == pat
}

/// The first index at or after `from` at which `pat` occurs in `s`.
pub open spec fn find_from(s: Seq<char>, pat: Seq<char>, from: int) -> Option<int>
    decreases s.len() + 1 - from,
{
    if from < 0 || from + pat.len() > s.len() {
        None
    } else if occurs_at(s, pat, from) {
        Some(from)
    } else {
        find_from(s, pat, from + 1)
    }
}

/// The first index at which `pat` occurs in `s`.
pub open spec fn find(s: Seq<char>, pat: Seq<char>) -> Option<int> {
    find_from(s, pat, 0)
}

/// The last index below `end` that holds `c`.
pub open spec fn rfind_before(s: Seq<char>, c: char, end: int) -> Option<int>
    decreases end,
{
    if end <= 0 || end > s.len() {
        None
    } else if s[end - 1] == c {
        Some(end - 1)
    } else {
        rfind_before(s, c, end - 1)
    }
}

/// The last index of `c` in `s`.
pub open spec fn rfind(s: Seq<char>, c: char) -> Option<int> {
    rfind_before(s, c, s.len() as int)
}

pub open spec fn starts_with(s: Seq<char>, p: Seq<char>) -> bool {
    p.len() <= s.len() && s.take(p.len() as int) == p
}

pub open spec fn ends_with(s: Seq<char>, p: Seq<char>) -> bool {
    p.len() <= s.len() && s.skip(s.len() - p.len()) == p
}

pub open spec fn contains(s: Seq<char>, p: Seq<char>) -> bool {
    find(s, p) is Some
}

/// What the first `next()` of `split(sep)` yields: everything before the first `sep`.
pub open spec fn first_piece(s: Seq<char>, sep: Seq<char>) -> Seq<char> {
    match find(s, sep) {
        Some(i) => s.take(i),
        None => s,
    }
}

/// Everything after the first `sep`, if there is one.
pub open spec fn after_first(s: Seq<char>, sep: Seq<char>) -> Option<Seq<char>> {
    match find(s, sep) {
        Some(i) => Some(s.skip(i + sep.len())),
        None => None,
    }
}

/// What the second `next()` of `split(sep)` yields.
pub open spec fn second_piece(s: Seq<char>, sep: Seq<char>) -> Option<Seq<char>> {
    match after_first(s, sep) {
        Some(r) => Some(first_piece(r, sep)),
        None => None,
    }
}

/// A line without its `"\r"` when that stood right before the `"\n"`.
pub open spec fn strip_cr(l: Seq<char>) -> Seq<char> {
    if l.len() > 0 && l.last() == '\r' {
        l.drop_last()
    } else {
        l
    }
}

/// The lines of `s` as `str::lines` gives them: split at `"\n"`, a `"\r"` before
/// the `"\n"` dropped, and no empty line after a final `"\n"`.
pub open spec fn lines(s: Seq<char>) -> Seq<Seq<char>>
    decreases s.len(),
{
    if s.len() == 0 {
        Seq::empty()
    } else {
        match find(s, seq!['\n']) {
            Some(i) => {
                proof {
                    lemma_find_from_in_range(s, seq!['\n'], 0);
                }
                seq![strip_cr(s.take(i))] + lines(s.skip(i + 1))
            },
            None => seq![s],
        }
    }
}

/// `s` with every occurrence of `pat` removed, matches taken left to right
/// without overlap (as `str::replace(pat, "")` does).
pub open spec fn remove_all(s: Seq<char>, pat: Seq<char>) -> Seq<char>
    decreases s.len(),
{
    if pat.len() == 0 || s.len() == 0 {
        s
    } else if starts_with(s, pat) {
        remove_all(s.skip(pat.len() as int), pat)
    } else {
        seq![s[0]] + remove_all(s.skip(1), pat)
    }
}

/// `a` comes no later than `b` in lexicographic order of code points (which is
/// also the byte order of their UTF-8 encodings).
pub open spec fn lex_le(a: Seq<char>, b: Seq<char>) -> bool
    decreases a.len(),
{
    if a.len() == 0 {
        true
    } else if b.len() == 0 {
        false
    } else if a[0] != b[0] {
        (a[0] as int) < (b[0] as int)
    } else {
        lex_le(a.drop_first(), b.drop_first())
    }
}

pub proof fn lemma_lex_total(a: Seq<char>, b: Seq<char>)
    ensures
        lex_le(a, b) || lex_le(b, a),
    decreases a.len(),
{
    if a.len() > 0 && b.len() > 0 {
        if a[0] == b[0] {
            lemma_lex_total(a.drop_first(), b.drop_first());
        } else {
            assert((a[0] as int) != (b[0] as int));
        }
    }
}

pub proof fn lemma_lex_trans(a: Seq<char>, b: Seq<char>, c: Seq<char>)
    requires
        lex_le(a, b),
        lex_le(b, c),
    ensures
        lex_le(a, c),
    decreases a.len(),
{
    if a.len() > 0 && b.len() > 0 && c.len() > 0 && a[0] == b[0] && b[0] == c[0] {
        lemma_lex_trans(a.drop_first(), b.drop_first(), c.drop_first());
    }
}

/// `s` is in lexicographic order.
pub open spec fn lex_sorted(s: Seq<Seq<char>>) -> bool {
    forall|a: int, b: int| 0 <= a < b < s.len() ==> lex_le(#[trigger] s[a], #[trigger] s[b])
}

/// Inserting `k` after every key not above it, and before every key above it,
/// keeps a sorted sequence sorted.
pub proof fn lemma_insert_keeps_sorted(s: Seq<Seq<char>>, p: int, k: Seq<char>)
    requires
        lex_sorted(s),
        0 <= p <= s.len(),
        p > 0 ==> lex_le(s[p - 1], k),
        forall|j: int| p <= j < s.len() ==> !lex_le(#[trigger] s[j], k),
    ensures
        lex_sorted(s.insert(p, k)),
{
    let t = s.insert(p, k);
    assert forall|a: int, b: int| 0 <= a < b < t.len() implies lex_le(#[trigger] t[a], #[trigger] t[b]) by {
        if b < p {
            assert(t[a] == s[a] && t[b] == s[b]);
        } else if a > p {
            assert(t[a] == s[a - 1] && t[b] == s[b - 1]);
        } else if b == p {
            assert(t[a] == s[a]);
            if a < p - 1 {
                lemma_lex_trans(s[a], s[p - 1], k);
            }
        } else if a == p {
            assert(t[b] == s[b - 1]);
            lemma_lex_total(s[b - 1], k);
        } else {
            assert(t[a] == s[a] && t[b] == s[b - 1]);
        }
    }
}

/// `s` is in reverse lexicographic order.
pub open spec fn lex_sorted_desc(s: Seq<Seq<char>>) -> bool {
    forall|a: int, b: int| 0 <= a < b < s.len() ==> lex_le(#[trigger] s[b], #[trigger] s[a])
}

/// Inserting `k` after every key not below it, and before every key below it,
/// keeps a reverse-sorted sequence reverse-sorted.
pub proof fn lemma_insert_keeps_sorted_desc(s: Seq<Seq<char>>, p: int, k: Seq<char>)
    requires
        lex_sorted_desc(s),
        0 <= p <= s.len(),
        p > 0 ==> lex_le(k, s[p - 1]),
        forall|j: int| p <= j < s.len() ==> !lex_le(k, #[trigger] s[j]),
    ensures
        lex_sorted_desc(s.insert(p, k)),
{
    let t = s.insert(p, k);
    assert forall|a: int, b: int| 0 <= a < b < t.len() implies lex_le(#[trigger] t[b], #[trigger] t[a]) by {
        if b < p {
            assert(t[a] == s[a] && t[b] == s[b]);
        } else if a > p {
            assert(t[a] == s[a - 1] && t[b] == s[b - 1]);
        } else if b == p {
            assert(t[a] == s[a]);
            if a < p - 1 {
                lemma_lex_trans(k, s[p - 1], s[a]);
            }
        } else if a == p {
            assert(t[b] == s[b - 1]);
            lemma_lex_total(s[b - 1], k);
        } else {
            assert(t[a] == s[a] && t[b] == s[b - 1]);
        }
    }
}

pub proof fn lemma_find_from_in_range(s: Seq<char>, pat: Seq<char>, from: int)
    ensures
        find_from(s, pat, from) matches Some(i) ==> from <= i && occurs_at(s, pat, i),
        find_from(s, pat, from) matches Some(i) ==> forall|j: int|
            from <= j < i ==> !occurs_at(s, pat, j),
    decreases s.len() + 1 - from,
{
    if from < 0 || from + pat.len() > s.len() {
    } else if occurs_at(s, pat, from) {
    } else {
        lemma_find_from_in_range(s, pat, from + 1);
    }
}

pub proof fn lemma_rfind_in_range(s: Seq<char>, c: char, end: int)
    ensures
        rfind_before(s, c, end) matches Some(i) ==> 0 <= i < end && i < s.len() && s[i] == c,
    decreases end,
{
    if end <= 0 || end > s.len() {
    } else if s[end - 1] == c {
    } else {
        lemma_rfind_in_range(s, c, end - 1);
    }
}

/// The characters of `s`.
pub fn chars_of(s: &str) -> (r: Vec<char>)
    ensures
        r@ == s@,
{
    let mut r: Vec<char> = Vec::new();
    for c in it: s.chars()
        invariant
            it.seq() == s@,
            r@ == it.seq().take(it.index() as int),
    {
        r.push(c);
    }
    r
}

/// Whether `a` comes no later than `b` in lexicographic order.
pub fn lex_le_exec(a: &Vec<char>, b: &Vec<char>) -> (r: bool)
    ensures
        r == lex_le(a@, b@),
{
    let mut i: usize = 0;
    assert(a@.skip(0) == a@ && b@.skip(0) == b@);
    loop
        invariant
            i <= a@.len(),
            i <= b@.len(),
            lex_le(a@, b@) == lex_le(a@.skip(i as int), b@.skip(i as int)),
        decreases a@.len() - i,
    {
        if i == a.len() {
            return true;
        }
        if i == b.len() {
            return false;
        }
        let x = a[i];
        let y = b[i];
        assert(a@.skip(i as int)[0] == x && b@.skip(i as int)[0] == y);
        if x != y {
            return x < y;
        }
        assert(a@.skip(i as int).drop_first() == a@.skip(i + 1));
        assert(b@.skip(i as int).drop_first() == b@.skip(i + 1));
        i += 1;
    }
}

/// The string made of the characters `cs` (std's `FromIterator<&char>` for `String`).
#[verifier::external_body]
pub fn string_of(cs: &Vec<char>) -> (r: String)
    ensures
        r@ == cs@,
{
    cs.iter().collect()
}

/// The characters `s[lo..hi]`.
pub fn slice_chars(s: &Vec<char>, lo: usize, hi: usize) -> (r: Vec<char>)
    requires
        lo <= hi <= s@.len(),
    ensures
        r@ == s@.subrange(lo as int, hi as int),
{
    let mut r: Vec<char> = Vec::new();
    let mut i = lo;
    while i < hi
        invariant
            lo <= i <= hi <= s@.len(),
            r@ == s@.subrange(lo as int, i as int),
        decreases hi - i,
    {
        r.push(s[i]);
        i += 1;
    }
    r
}

/// Whether `pat` occurs in `s` at index `i`.
pub fn occurs_at_exec(s: &Vec<char>, pat: &Vec<char>, i: usize) -> (r: bool)
    ensures
        r == occurs_at(s@, pat@, i as int),
{
    if pat.len() > s.len() || i > s.len() - pat.len() {
        return false;
    }
    let last = s.len() - pat.len();
    let mut j: usize = 0;
    while j < pat.len()
        invariant
            i <= last,
            last + pat.len() == s.len(),
            j <= pat@.len(),
            forall|k: int| 0 <= k < j ==> s@[i + k] == pat@[k],
        decreases pat@.len() - j,
    {
        if s[i + j] != pat[j] {
            assert(s@.subrange(i as int, i + pat@.len())[j as int] != pat@[j as int]);
            return false;
        }
        j += 1;
    }
    assert(s@.subrange(i as int, i + pat@.len()) =~= pat@);
    true
}

/// The first index at or after `from` at which `pat` occurs in `s`.
pub fn find_from_exec(s: &Vec<char>, pat: &Vec<char>, from: usize) -> (r: Option<usize>)
    ensures
        match r {
            Some(i) => find_from(s@, pat@, from as int) == Some(i as int),
            None => find_from(s@, pat@, from as int) is None,
        },
{
    if pat.len() > s.len() {
        return None;
    }
    let last = s.len() - pat.len();
    if from > last {
        return None;
    }
    let mut i = from;
    loop
        invariant
            last + pat@.len() == s@.len(),
            from <= i <= last,
            find_from(s@, pat@, from as int) == find_from(s@, pat@, i as int),
        decreases last - i,
    {
        if occurs_at_exec(s, pat, i) {
            return Some(i);
        }
        if i >= last {
            assert(find_from(s@, pat@, i + 1) is None);
            return None;
        }
        i += 1;
    }
}

/// The first index at which `pat` occurs in `s`.
pub fn find_exec(s: &Vec<char>, pat: &Vec<char>) -> (r: Option<usize>)
    ensures
        match r {
            Some(i) => find(s@, pat@) == Some(i as int),
            None => find(s@, pat@) is None,
        },
{
    find_from_exec(s, pat, 0)
}

/// The last index of `c` in `s`.
pub fn rfind_exec(s: &Vec<char>, c: char) -> (r: Option<usize>)
    ensures
        match r {
            Some(i) => rfind(s@, c) == Some(i as int),
            None => rfind(s@, c) is None,
        },
{
    let mut end = s.len();
    while end > 0
        invariant
            end <= s@.len(),
            rfind(s@, c) == rfind_before(s@, c, end as int),
        decreases end,
    {
        if s[end - 1] == c {
            return Some(end - 1);
        }
        end -= 1;
    }
    None
}

pub fn starts_with_exec(s: &Vec<char>, p: &Vec<char>) -> (r: bool)
    ensures
        r == starts_with(s@, p@),
{
    let r = occurs_at_exec(s, p, 0);
    assert(s@.subrange(0, p@.len() as int) == s@.take(p@.len() as int));
    r
}

pub fn ends_with_exec(s: &Vec<char>, p: &Vec<char>) -> (r: bool)
    ensures
        r == ends_with(s@, p@),
{
    if p.len() > s.len() {
        return false;
    }
    let r = occurs_at_exec(s, p, s.len() - p.len());
    assert(s@.subrange(s@.len() - p@.len(), s@.len() as int) == s@.skip(s@.len() - p@.len()));
    r
}

pub fn contains_exec(s: &Vec<char>, p: &Vec<char>) -> (r: bool)
    ensures
        r == contains(s@, p@),
{
    find_exec(s, p).is_some()
}

/// The first piece of `s.split(sep)`.
pub fn first_piece_exec(s: &Vec<char>, sep: &Vec<char>) -> (r: Vec<char>)
    ensures
        r@ == first_piece(s@, sep@),
{
    proof {
        lemma_find_from_in_range(s@, sep@, 0);
    }
    match find_exec(s, sep) {
        Some(i) => slice_chars(s, 0, i),
        None => slice_chars(s, 0, s.len()),
    }
}

/// What follows the first `sep` in `s`, if `sep` occurs.
pub fn after_first_exec(s: &Vec<char>, sep: &Vec<char>) -> (r: Option<Vec<char>>)
    ensures
        match r {
            Some(v) => after_first(s@, sep@) == Some(v@),
            None => after_first(s@, sep@) is None,
        },
{
    proof {
        lemma_find_from_in_range(s@, sep@, 0);
    }
    match find_exec(s, sep) {
        Some(i) => {
            let n = s.len();
            assert(occurs_at(s@, sep@, i as int));
            Some(slice_chars(s, i + sep.len(), n))
        },
        None => None,
    }
}

/// The second piece of `s.split(sep)`, if there is one.
pub fn second_piece_exec(s: &Vec<char>, sep: &Vec<char>) -> (r: Option<Vec<char>>)
    ensures
        match r {
            Some(v) => second_piece(s@, sep@) == Some(v@),
            None => second_piece(s@, sep@) is None,
        },
{
    match after_first_exec(s, sep) {
        Some(rest) => Some(first_piece_exec(&rest, sep)),
        None => None,
    }
}

/// The lines of `s`, as `str::lines` gives them.
pub fn lines_exec(s: &Vec<char>) -> (r: Vec<Vec<char>>)
    ensures
        r@.len() == lines(s@).len(),
        forall|i: int| 0 <= i < r@.len() ==> #[trigger] r@[i]@ == lines(s@)[i],
{
    let newline = vec!['\n'];
    assert(newline@ == seq!['\n']);
    let mut r: Vec<Vec<char>> = Vec::new();
    let mut start: usize = 0;
    let ghost done: Seq<Seq<char>> = Seq::empty();
    assert(s@.skip(0) == s@);
    assert(done + lines(s@) == lines(s@));
    while start < s.len()
        invariant
            start <= s@.len(),
            newline@ == seq!['\n'],
            r@.len() == done.len(),
            forall|i: int| 0 <= i < r@.len() ==> #[trigger] r@[i]@ == done[i],
            lines(s@) == done + lines(s@.skip(start as int)),
        decreases s@.len() - start,
    {
        let rest = slice_chars(s, start, s.len());
        assert(rest@ == s@.skip(start as int));
        proof {
            lemma_find_from_in_range(rest@, seq!['\n'], 0);
        }
        match find_exec(&rest, &newline) {
            Some(i) => {
                let mut line = slice_chars(&rest, 0, i);
                if line.len() > 0 && line[line.len() - 1] == '\r' {
                    line.pop();
                }
                assert(line@ == strip_cr(rest@.take(i as int)));
                assert(rest@.skip(i + 1) == s@.skip(start + i + 1));
                proof {
                    done = done.push(line@);
                }
                r.push(line);
                assert(lines(s@) == done + lines(s@.skip(start + i + 1)));
                start = start + i + 1;
            },
            None => {
                proof {
                    done = done.push(rest@);
                }
                r.push(rest);
                assert(lines(s@.skip(s@.len() as int)) == Seq::<Seq<char>>::empty());
                assert(lines(s@) == done + lines(s@.skip(s@.len() as int)));
                start = s.len();
            },
        }
    }
    assert(lines(s@.skip(start as int)) == Seq::<Seq<char>>::empty());
    assert(lines(s@) == done);
    r
}

/// `s` with every occurrence of `pat` removed, left to right.
pub fn remove_all_exec(s: &Vec<char>, pat: &Vec<char>) -> (r: Vec<char>)
    ensures
        r@ == remove_all(s@, pat@),
{
    if pat.len() == 0 {
        return slice_chars(s, 0, s.len());
    }
    let mut r: Vec<char> = Vec::new();
    let mut i: usize = 0;
    assert(s@.skip(0) == s@);
    assert(r@ + remove_all(s@, pat@) == remove_all(s@, pat@));
    while i < s.len()
        invariant
            i <= s@.len(),
            pat@.len() > 0,
            remove_all(s@, pat@) == r@ + remove_all(s@.skip(i as int), pat@),
        decreases s@.len() - i,
    {
        let here = occurs_at_exec(s, pat, i);
        assert(starts_with(s@.skip(i as int), pat@) == occurs_at(s@, pat@, i as int)) by {
            if pat@.len() <= s@.len() - i {
                assert(s@.skip(i as int).take(pat@.len() as int) == s@.subrange(
                    i as int,
                    i + pat@.len(),
                ));
            }
        }
        if here {
            assert(s@.skip(i as int).skip(pat@.len() as int) == s@.skip(i + pat@.len()));
            i = i + pat.len();
        } else {
            assert(s@.skip(i as int).skip(1) == s@.skip(i + 1));
            assert(s@.skip(i as int)[0] == s@[i as int]);
            r.push(s[i]);
            assert(r@ == r@.drop_last().push(s@[i as int]));
            i = i + 1;
        }
    }
    assert(s@.skip(i as int).len() == 0);
    r
}

} // verus!
