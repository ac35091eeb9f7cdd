//! Character-level text operations used to read a command line, with
//! their mathematical models over `Seq<char>`.

use vstd::prelude::*;

verus! {

/// The characters of `s`, in order.
pub fn chars_of(s: &str) -> (v: Vec<char>)
    ensures
        v@ == s@,
{
    let mut v: Vec<char> = Vec::new();
    for c in it: s.chars()
        invariant
            it.seq() == s@,
            v@ == s@.take(it.index() as int),
    {
        v.push(c);
    }
    v
}


/// Whether `a` holds the text `b`.
pub fn same_text(a: &String, b: &str) -> (r: bool)
    ensures
        r == (a@ == b@),
{
    *a == String::from_str(b)
}

/// Unicode `White_Space`, the property that `char::is_whitespace` tests.
pub open spec fn whitespace(c: char) -> bool {
    let u = c as u32;
    ||| 0x09 <= u <= 0x0D
    ||| u == 0x20
    ||| u == 0x85
    ||| u == 0xA0
    ||| u == 0x1680
    ||| 0x2000 <= u <= 0x200A
    ||| u == 0x2028
    ||| u == 0x2029
    ||| u == 0x202F
    ||| u == 0x205F
    ||| u == 0x3000
}

/// Whether `c` is a whitespace character.
pub fn is_whitespace(c: char) -> (b: bool)
    ensures
        b == whitespace(c),
{
    let u = c as u32;
    (0x09 <= u && u <= 0x0D) || u == 0x20 || u == 0x85 || u == 0xA0 || u == 0x1680 || (0x2000
        <= u && u <= 0x200A) || u == 0x2028 || u == 0x2029 || u == 0x202F || u == 0x205F || u
        == 0x3000
}

/// `s` without its leading whitespace.
pub open spec fn trim_start(s: Seq<char>) -> Seq<char>
    decreases s.len(),
{
    if s.len() > 0 && whitespace(s[0]) {
        trim_start(s.drop_first())
    } else {
        s
    }
}

/// `s` without its trailing whitespace.
pub open spec fn trim_end(s: Seq<char>) -> Seq<char>
    decreases s.len(),
{
    if s.len() > 0 && whitespace(s.last()) {
        trim_end(s.drop_last())
    } else {
        s
    }
}

/// `s` without leading and trailing whitespace (what `str::trim` gives).
pub open spec fn trim(s: Seq<char>) -> Seq<char> {
    trim_end(trim_start(s))
}

proof fn lemma_trim_start_at(s: Seq<char>, a: int)
    requires
        0 <= a <= s.len(),
        forall|i: int| 0 <= i < a ==> whitespace(#[trigger] s[i]),
        a == s.len() || !whitespace(s[a]),
    ensures
        trim_start(s) == s.skip(a),
    decreases a,
{
    if a == 0 {
        assert(s.skip(0) =~= s);
    } else {
        assert(whitespace(s[0]));
        let t = s.drop_first();
        assert forall|i: int| 0 <= i < a - 1 implies whitespace(#[trigger] t[i]) by {
            assert(t[i] == s[i + 1]);
        }
        if a < s.len() {
            assert(t[a - 1] == s[a]);
        }
        lemma_trim_start_at(t, a - 1);
        assert(t.skip(a - 1) =~= s.skip(a));
    }
}

proof fn lemma_trim_end_at(s: Seq<char>, b: int)
    requires
        0 <= b <= s.len(),
        forall|i: int| b <= i < s.len() ==> whitespace(#[trigger] s[i]),
        b == 0 || !whitespace(s[b - 1]),
    ensures
        trim_end(s) == s.take(b),
    decreases s.len() - b,
{
    if b == s.len() {
        assert(s.take(b) =~= s);
    } else {
        assert(whitespace(s.last()));
        let t = s.drop_last();
        assert forall|i: int| b <= i < t.len() implies whitespace(#[trigger] t[i]) by {
            assert(t[i] == s[i]);
        }
        if b > 0 {
            assert(t[b - 1] == s[b - 1]);
        }
        lemma_trim_end_at(t, b);
        assert(t.take(b) =~= s.take(b));
    }
}

/// Leading and trailing whitespace removed, as `str::trim` does.
pub fn trim_str(s: &str) -> (t: String)
    ensures
        t@ == trim(s@),
{
    let v = chars_of(s);
    let n = v.len();
    let mut a: usize = 0;
    while a < n && is_whitespace(v[a])
        invariant
            v@ == s@,
            n == v.len(),
            a <= n,
            forall|i: int| 0 <= i < a ==> whitespace(#[trigger] s@[i]),
        decreases n - a,
    {
        a = a + 1;
    }
    let mut b: usize = n;
    while b > a && is_whitespace(v[b - 1])
        invariant
            v@ == s@,
            n == v.len(),
            a <= b <= n,
            forall|i: int| b <= i < n ==> whitespace(#[trigger] s@[i]),
        decreases b - a,
    {
        b = b - 1;
    }
    proof {
        lemma_trim_start_at(s@, a as int);
        let u = s@.skip(a as int);
        assert forall|i: int| (b - a) <= i < u.len() implies whitespace(#[trigger] u[i]) by {
            assert(u[i] == s@[i + a]);
        }
        if b > a {
            assert(u[b - a - 1] == s@[b - 1]);
        }
        lemma_trim_end_at(u, b - a);
        assert(u.take(b - a) =~= s@.subrange(a as int, b as int));
    }
    String::from_str(s.substring_char(a, b))
}


/// The length of the run of non-whitespace characters that starts `s`.
pub open spec fn word_len(s: Seq<char>) -> nat
    decreases s.len(),
{
    if s.len() == 0 || whitespace(s[0]) {
        0
    } else {
        1 + word_len(s.drop_first())
    }
}

/// The whitespace-separated words of `s`, in order (what
/// `str::split_whitespace` yields): the maximal runs of non-whitespace
/// characters.
pub open spec fn words(s: Seq<char>) -> Seq<Seq<char>>
    decreases s.len(),
    via words_decreases
{
    if s.len() == 0 {
        seq![]
    } else if whitespace(s[0]) {
        words(s.drop_first())
    } else {
        let n = word_len(s) as int;
        seq![s.take(n)] + words(s.skip(n))
    }
}

#[via_fn]
proof fn words_decreases(s: Seq<char>) {
    if s.len() != 0 && !whitespace(s[0]) {
        lemma_word_len_bounds(s);
    }
}

/// A word is never longer than the text it starts.
pub proof fn lemma_word_len_bounds(s: Seq<char>)
    ensures
        word_len(s) <= s.len(),
        s.len() > 0 && !whitespace(s[0]) ==> word_len(s) >= 1,
    decreases s.len(),
{
    if s.len() > 0 && !whitespace(s[0]) {
        lemma_word_len_bounds(s.drop_first());
    }
}

proof fn lemma_word_len_at(s: Seq<char>, m: int)
    requires
        0 <= m <= s.len(),
        forall|i: int| 0 <= i < m ==> !whitespace(#[trigger] s[i]),
        m == s.len() || whitespace(s[m]),
    ensures
        word_len(s) == m,
    decreases m,
{
    if m > 0 {
        let t = s.drop_first();
        assert forall|i: int| 0 <= i < m - 1 implies !whitespace(#[trigger] t[i]) by {
            assert(t[i] == s[i + 1]);
        }
        if m < s.len() {
            assert(t[m - 1] == s[m]);
        }
        lemma_word_len_at(t, m - 1);
    }
}

/// The views of a vector of strings.
pub open spec fn views(v: Seq<String>) -> Seq<Seq<char>> {
    v.map_values(|w: String| w@)
}

/// The whitespace-separated words of `s`, as `str::split_whitespace`
/// yields them.
pub fn split_whitespace(s: &str) -> (ws: Vec<String>)
    ensures
        views(ws@) == words(s@),
{
    let v = chars_of(s);
    let n = v.len();
    let mut out: Vec<String> = Vec::new();
    let mut i: usize = 0;
    assert(s@.skip(0) =~= s@);
    while i < n
        invariant
            v@ == s@,
            n == v.len(),
            i <= n,
            words(s@) == views(out@) + words(s@.skip(i as int)),
        decreases n - i,
    {
        let ghost rest = s@.skip(i as int);
        if is_whitespace(v[i]) {
            assert(rest.drop_first() =~= s@.skip(i + 1));
            i = i + 1;
        } else {
            let mut j: usize = i + 1;
            while j < n && !is_whitespace(v[j])
                invariant
                    v@ == s@,
                    n == v.len(),
                    i < j <= n,
                    forall|k: int| i <= k < j ==> !whitespace(#[trigger] s@[k]),
                decreases n - j,
            {
                j = j + 1;
            }
            proof {
                assert forall|k: int| 0 <= k < j - i implies !whitespace(#[trigger] rest[k]) by {
                    assert(rest[k] == s@[k + i]);
                }
                if j < n {
                    assert(rest[j - i] == s@[j as int]);
                }
                lemma_word_len_at(rest, j - i);
                assert(rest.take(j - i) =~= s@.subrange(i as int, j as int));
                assert(rest.skip(j - i) =~= s@.skip(j as int));
            }
            let w = String::from_str(s.substring_char(i, j));
            let ghost before = out@;
            out.push(w);
            proof {
                assert(views(out@) =~= views(before) + seq![w@]);
                assert(words(rest) == seq![rest.take(j - i)] + words(rest.skip(j - i)));
            }
            i = j;
        }
    }
    proof {
        assert(s@.skip(n as int) =~= Seq::<char>::empty());
        assert(views(out@) + seq![] =~= views(out@));
    }
    out
}


/// How many times `c` occurs in `s`.
pub open spec fn count(s: Seq<char>, c: char) -> nat
    decreases s.len(),
{
    if s.len() == 0 {
        0
    } else {
        count(s.drop_last(), c) + if s.last() == c {
            1nat
        } else {
            0nat
        }
    }
}

/// The pieces of `s` between occurrences of `c` (what `str::split` with
/// a one-character pattern yields), empty pieces included.
pub open spec fn split(s: Seq<char>, c: char) -> Seq<Seq<char>>
    decreases s.len(),
{
    if s.len() == 0 {
        seq![seq![]]
    } else {
        let p = split(s.drop_last(), c);
        if s.last() == c {
            p.push(seq![])
        } else {
            p.update(p.len() - 1, p.last().push(s.last()))
        }
    }
}

/// How many times `c` occurs in `s` (what `s.matches(c).count()` gives).
pub fn count_char(s: &str, c: char) -> (n: usize)
    ensures
        n == count(s@, c),
{
    let v = chars_of(s);
    let len = v.len();
    let mut n: usize = 0;
    let mut i: usize = 0;
    assert(s@.take(0) =~= Seq::<char>::empty());
    while i < len
        invariant
            v@ == s@,
            len == v.len(),
            i <= len,
            n == count(s@.take(i as int), c),
            n <= i,
        decreases len - i,
    {
        assert(s@.take(i + 1).drop_last() =~= s@.take(i as int));
        if v[i] == c {
            n = n + 1;
        }
        i = i + 1;
    }
    assert(s@.take(len as int) =~= s@);
    n
}

/// The pieces of `s` between occurrences of `c`, as `str::split` with a
/// one-character pattern yields them.
pub fn split_char(s: &str, c: char) -> (parts: Vec<String>)
    ensures
        views(parts@) == split(s@, c),
{
    let v = chars_of(s);
    let n = v.len();
    let mut out: Vec<String> = Vec::new();
    let mut start: usize = 0;
    let mut i: usize = 0;
    assert(s@.take(0) =~= Seq::<char>::empty());
    assert(views(out@).push(s@.subrange(0, 0)) =~= seq![seq![]]);
    while i < n
        invariant
            v@ == s@,
            n == v.len(),
            start <= i <= n,
            split(s@.take(i as int), c) == views(out@).push(s@.subrange(start as int, i as int)),
        decreases n - i,
    {
        let ghost prev = views(out@).push(s@.subrange(start as int, i as int));
        assert(s@.take(i + 1).drop_last() =~= s@.take(i as int));
        assert(s@.take(i + 1).last() == s@[i as int]);
        if v[i] == c {
            let piece = String::from_str(s.substring_char(start, i));
            let ghost before = views(out@);
            out.push(piece);
            assert(views(out@) =~= before.push(piece@));
            start = i + 1;
            assert(s@.subrange(start as int, i + 1) =~= Seq::<char>::empty());
            assert(views(out@).push(s@.subrange(start as int, i + 1)) =~= prev.push(seq![]));
        } else {
            assert(s@.subrange(start as int, i as int).push(s@[i as int]) =~= s@.subrange(
                start as int,
                i + 1,
            ));
            assert(views(out@).push(s@.subrange(start as int, i + 1)) =~= prev.update(
                prev.len() - 1,
                prev.last().push(s@[i as int]),
            ));
        }
        i = i + 1;
    }
    assert(s@.take(n as int) =~= s@);
    let last = String::from_str(s.substring_char(start, n));
    let ghost before = views(out@);
    out.push(last);
    assert(views(out@) =~= before.push(last@));
    assert(views(out@) =~= split(s@, c));
    out
}

/// Whether `pat` occurs in `v` at position `i`.
fn occurs_at(v: &Vec<char>, i: usize, pat: &Vec<char>) -> (b: bool)
    requires
        i + pat.len() <= v.len(),
    ensures
        b == (v@.subrange(i as int, i + pat.len()) == pat@),
{
    let mut k: usize = 0;
    while k < pat.len()
        invariant
            i + pat.len() <= v.len(),
            k <= pat.len(),
            forall|j: int| 0 <= j < k ==> v@[i + j] == pat@[j],
        decreases pat.len() - k,
    {
        if v[i + k] != pat[k] {
            assert(v@.subrange(i as int, i + pat.len())[k as int] != pat@[k as int]);
            return false;
        }
        k = k + 1;
    }
    assert(v@.subrange(i as int, i + pat.len()) =~= pat@);
    true
}

/// Whether `s` begins with `p` (what `str::starts_with` gives).
pub fn starts_with(s: &str, p: &str) -> (b: bool)
    ensures
        b == (p@.len() <= s@.len() && s@.take(p@.len() as int) == p@),
{
    let v = chars_of(s);
    let pv = chars_of(p);
    if pv.len() > v.len() {
        return false;
    }
    let r = occurs_at(&v, 0, &pv);
    assert(v@.subrange(0, pv.len() as int) =~= s@.take(p@.len() as int));
    r
}

/// Splitting at `c` gives one piece more than `c` occurs.
pub proof fn lemma_split_count(s: Seq<char>, c: char)
    ensures
        split(s, c).len() == count(s, c) + 1,
    decreases s.len(),
{
    if s.len() > 0 {
        lemma_split_count(s.drop_last(), c);
    }
}


/// A text without `c` is one piece.
pub proof fn lemma_split_without_separator(s: Seq<char>, c: char)
    requires
        count(s, c) == 0,
    ensures
        split(s, c) == seq![s],
    decreases s.len(),
{
    if s.len() == 0 {
        assert(s =~= Seq::<char>::empty());
        assert(split(s, c) =~= seq![s]);
    } else {
        let t = s.drop_last();
        assert(s.last() != c);
        lemma_split_without_separator(t, c);
        assert(t.push(s.last()) =~= s);
        assert(split(s, c) == seq![t].update(0, t.push(s.last())));
        assert(seq![t].update(0, t.push(s.last())) =~= seq![s]);
    }
}

/// The pieces `parts` put back together with `c` between neighbours.
pub open spec fn join(parts: Seq<Seq<char>>, c: char) -> Seq<char>
    decreases parts.len(),
{
    if parts.len() == 0 {
        seq![]
    } else if parts.len() == 1 {
        parts[0]
    } else {
        join(parts.drop_last(), c) + seq![c] + parts.last()
    }
}

/// Putting the pieces of `s` back together with `c` gives `s` again, and
/// no piece holds `c`.
pub proof fn lemma_split_join(s: Seq<char>, c: char)
    ensures
        join(split(s, c), c) == s,
        forall|i: int, j: int|
            0 <= i < split(s, c).len() && 0 <= j < split(s, c)[i].len() ==> split(s, c)[i][j]
                != c,
    decreases s.len(),
{
    if s.len() == 0 {
        assert(join(split(s, c), c) =~= s);
    } else {
        let t = s.drop_last();
        let x = s.last();
        let p = split(t, c);
        lemma_split_join(t, c);
        lemma_split_count(t, c);
        assert(t.push(x) =~= s);
        if x == c {
            let q = p.push(seq![]);
            assert(q.drop_last() =~= p);
            assert(join(q, c) =~= join(p, c) + seq![c] + Seq::<char>::empty());
            assert(join(q, c) =~= s);
            assert forall|i: int, j: int| 0 <= i < q.len() && 0 <= j < q[i].len() implies q[i][j]
                != c by {
                assert(q[i] == p[i]);
            }
        } else {
            let q = p.update(p.len() - 1, p.last().push(x));
            if p.len() == 1 {
                assert(join(q, c) =~= p[0].push(x));
            } else {
                assert(q.drop_last() =~= p.drop_last());
                assert(join(q, c) =~= join(p.drop_last(), c) + seq![c] + p.last().push(x));
            }
            assert(join(q, c) =~= s);
            assert forall|i: int, j: int| 0 <= i < q.len() && 0 <= j < q[i].len() implies q[i][j]
                != c by {
                if i < p.len() - 1 {
                    assert(q[i] == p[i]);
                } else if j < p.last().len() {
                    assert(q[i][j] == p[i][j]);
                }
            }
        }
    }
}

proof fn lemma_trim_start_first(s: Seq<char>)
    ensures
        trim_start(s).len() == 0 || !whitespace(trim_start(s)[0]),
    decreases s.len(),
{
    if s.len() > 0 && whitespace(s[0]) {
        lemma_trim_start_first(s.drop_first());
    }
}

proof fn lemma_trim_end_keeps_first(s: Seq<char>)
    ensures
        trim_end(s).len() == 0 || !whitespace(trim_end(s).last()),
        s.len() > 0 && !whitespace(s[0]) ==> trim_end(s).len() > 0 && trim_end(s)[0] == s[0],
    decreases s.len(),
{
    if s.len() > 0 && whitespace(s.last()) {
        lemma_trim_end_keeps_first(s.drop_last());
    }
}

/// A trimmed text starts and ends with a non-whitespace character (or is
/// empty), and trimming it again changes nothing.
pub proof fn lemma_trim_idempotent(s: Seq<char>)
    ensures
        trim(s).len() == 0 || (!whitespace(trim(s)[0]) && !whitespace(trim(s).last())),
        trim(trim(s)) == trim(s),
{
    lemma_trim_start_first(s);
    lemma_trim_end_keeps_first(trim_start(s));
    let t = trim(s);
    assert(trim_start(t) == t);
    assert(trim_end(t) == t);
}

proof fn lemma_word_len_push_space(s: Seq<char>, x: char)
    requires
        whitespace(x),
    ensures
        word_len(s.push(x)) == word_len(s),
    decreases s.len(),
{
    if s.len() > 0 && !whitespace(s[0]) {
        assert(s.push(x).drop_first() =~= s.drop_first().push(x));
        lemma_word_len_push_space(s.drop_first(), x);
    }
}

proof fn lemma_words_push_space(s: Seq<char>, x: char)
    requires
        whitespace(x),
    ensures
        words(s.push(x)) == words(s),
    decreases s.len(),
{
    let t = s.push(x);
    if s.len() == 0 {
        assert(t[0] == x);
        assert(t.drop_first() =~= Seq::<char>::empty());
        assert(words(t) == words(t.drop_first()));
    } else if whitespace(s[0]) {
        assert(t[0] == s[0]);
        assert(t.drop_first() =~= s.drop_first().push(x));
        lemma_words_push_space(s.drop_first(), x);
    } else {
        assert(t[0] == s[0]);
        lemma_word_len_push_space(s, x);
        lemma_word_len_bounds(s);
        let n = word_len(s) as int;
        assert(t.take(n) =~= s.take(n));
        assert(t.skip(n) =~= s.skip(n).push(x));
        lemma_words_push_space(s.skip(n), x);
        assert(words(t) == seq![t.take(n)] + words(t.skip(n)));
    }
}

proof fn lemma_words_trim_start(s: Seq<char>)
    ensures
        words(trim_start(s)) == words(s),
    decreases s.len(),
{
    if s.len() > 0 && whitespace(s[0]) {
        lemma_words_trim_start(s.drop_first());
    }
}

proof fn lemma_words_trim_end(s: Seq<char>)
    ensures
        words(trim_end(s)) == words(s),
    decreases s.len(),
{
    if s.len() > 0 && whitespace(s.last()) {
        lemma_words_trim_end(s.drop_last());
        lemma_words_push_space(s.drop_last(), s.last());
        assert(s.drop_last().push(s.last()) =~= s);
    }
}

/// Whitespace around a line does not change its words.
pub proof fn lemma_words_trim(s: Seq<char>)
    ensures
        words(trim(s)) == words(s),
{
    lemma_words_trim_end(trim_start(s));
    lemma_words_trim_start(s);
}

/// Every word is non-empty and holds no whitespace.
pub proof fn lemma_words_are_words(s: Seq<char>)
    ensures
        forall|i: int| 0 <= i < words(s).len() ==> #[trigger] words(s)[i].len() > 0,
        forall|i: int, j: int|
            0 <= i < words(s).len() && 0 <= j < words(s)[i].len() ==> !whitespace(
                words(s)[i][j],
            ),
    decreases s.len(),
{
    if s.len() > 0 {
        if whitespace(s[0]) {
            lemma_words_are_words(s.drop_first());
            assert(words(s) == words(s.drop_first()));
        } else {
            lemma_word_len_bounds(s);
            let n = word_len(s) as int;
            lemma_words_are_words(s.skip(n));
            lemma_word_run(s);
            let w = words(s);
            assert(w == seq![s.take(n)] + words(s.skip(n)));
            assert(w[0] == s.take(n));
            assert forall|i: int, j: int|
                0 <= i < w.len() && 0 <= j < w[i].len() implies !whitespace(w[i][j]) by {
                if i > 0 {
                    assert(w[i] == words(s.skip(n))[i - 1]);
                }
            }
            assert forall|i: int| 0 <= i < w.len() implies #[trigger] w[i].len() > 0 by {
                if i > 0 {
                    assert(w[i] == words(s.skip(n))[i - 1]);
                }
            }
        }
    }
}

proof fn lemma_word_run(s: Seq<char>)
    ensures
        forall|j: int| 0 <= j < word_len(s) ==> !whitespace(#[trigger] s[j]),
    decreases s.len(),
{
    if s.len() > 0 && !whitespace(s[0]) {
        lemma_word_len_bounds(s.drop_first());
        lemma_word_run(s.drop_first());
        assert forall|j: int| 0 <= j < word_len(s) implies !whitespace(#[trigger] s[j]) by {
            if j > 0 {
                assert(s[j] == s.drop_first()[j - 1]);
            }
        }
    }
}

} // verus!
