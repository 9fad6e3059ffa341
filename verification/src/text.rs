//! Sequence and string helpers shared by the request, routing and plugin logic.
use vstd::prelude::*;

verus! {

/// `pat` occurs in `s` starting at position `i`.
pub open spec fn matches_at<T>(s: Seq<T>, pat: Seq<T>, i: int) -> bool {
    0 <= i && i + pat.len() <= s.len() && s.subrange(i, i + pat.len()) == pat
}

/// `pat` occurs somewhere in `s`.
pub open spec fn contains_seq<T>(s: Seq<T>, pat: Seq<T>) -> bool {
    exists|i: int| matches_at(s, pat, i)
}

/// `s` begins with `pat`.
pub open spec fn starts_with_seq<T>(s: Seq<T>, pat: Seq<T>) -> bool {
    matches_at(s, pat, 0)
}

/// `i` is the start of the rightmost occurrence of `pat` in `s`.
pub open spec fn is_last_match<T>(s: Seq<T>, pat: Seq<T>, i: int) -> bool {
    matches_at(s, pat, i) && forall|j: int| i < j ==> !#[trigger] matches_at(s, pat, j)
}

/// `i` is the start of the leftmost occurrence of `pat` in `s`.
pub open spec fn is_first_match<T>(s: Seq<T>, pat: Seq<T>, i: int) -> bool {
    matches_at(s, pat, i) && forall|j: int| j < i ==> !#[trigger] matches_at(s, pat, j)
}

/// Whether `pat` occurs in `s` at `i`, for byte sequences.
pub fn bytes_match_at(s: &[u8], pat: &[u8], i: usize) -> (b: bool)
    ensures
        b == matches_at(s@, pat@, i as int),
{
    if i > s.len() || pat.len() > s.len() - i {
        return false;
    }
    let mut k: usize = 0;
    while k < pat.len()
        invariant
            i + pat.len() <= s.len(),
            k <= pat@.len(),
            forall|m: int| 0 <= m < k ==> s@[i + m] == pat@[m],
        decreases pat@.len() - k,
    {
        if s[i + k] != pat[k] {
            assert(s@.subrange(i as int, i + pat@.len())[k as int] != pat@[k as int]);
            return false;
        }
        k = k + 1;
    }
    assert(s@.subrange(i as int, i + pat@.len()) =~= pat@);
    true
}

/// Start of the rightmost occurrence of `pat` in `s`, for byte sequences.
pub fn bytes_rfind(s: &[u8], pat: &[u8]) -> (r: Option<usize>)
    ensures
        r is None <==> !contains_seq(s@, pat@),
        r matches Some(i) ==> is_last_match(s@, pat@, i as int),
{
    if pat.len() > s.len() {
        assert forall|j: int| !#[trigger] matches_at(s@, pat@, j) by {}
        return None;
    }
    let mut i: usize = s.len() - pat.len();
    loop
        invariant
            pat@.len() <= s@.len(),
            i <= s@.len() - pat@.len(),
            forall|j: int| i < j ==> !#[trigger] matches_at(s@, pat@, j),
        decreases i,
    {
        if bytes_match_at(s, pat, i) {
            return Some(i);
        }
        if i == 0 {
            assert forall|j: int| !#[trigger] matches_at(s@, pat@, j) by {
                if j == 0 {
                }
            }
            return None;
        }
        i = i - 1;
    }
}

/// Start of the leftmost occurrence of `pat` in `s`, for byte sequences.
pub fn bytes_find(s: &[u8], pat: &[u8]) -> (r: Option<usize>)
    ensures
        r is None <==> !contains_seq(s@, pat@),
        r matches Some(i) ==> is_first_match(s@, pat@, i as int),
{
    if pat.len() > s.len() {
        assert forall|j: int| !#[trigger] matches_at(s@, pat@, j) by {}
        return None;
    }
    let last: usize = s.len() - pat.len();
    let mut i: usize = 0;
    loop
        invariant
            pat@.len() <= s@.len(),
            last == s@.len() - pat@.len(),
            i <= last,
            forall|j: int| j < i ==> !#[trigger] matches_at(s@, pat@, j),
        decreases last - i,
    {
        if bytes_match_at(s, pat, i) {
            return Some(i);
        }
        if i == last {
            assert forall|j: int| !#[trigger] matches_at(s@, pat@, j) by {
                if j == last {
                }
            }
            return None;
        }
        i = i + 1;
    }
}

/// Whether `pat` occurs in `s` at `i`, for character sequences.
pub fn chars_match_at(s: &[char], pat: &[char], i: usize) -> (b: bool)
    ensures
        b == matches_at(s@, pat@, i as int),
{
    if i > s.len() || pat.len() > s.len() - i {
        return false;
    }
    let mut k: usize = 0;
    while k < pat.len()
        invariant
            i + pat.len() <= s.len(),
            k <= pat@.len(),
            forall|m: int| 0 <= m < k ==> s@[i + m] == pat@[m],
        decreases pat@.len() - k,
    {
        if s[i + k] != pat[k] {
            assert(s@.subrange(i as int, i + pat@.len())[k as int] != pat@[k as int]);
            return false;
        }
        k = k + 1;
    }
    assert(s@.subrange(i as int, i + pat@.len()) =~= pat@);
    true
}

/// Start of the leftmost occurrence of `pat` in `s`, for character sequences.
pub fn chars_find(s: &[char], pat: &[char]) -> (r: Option<usize>)
    ensures
        r is None <==> !contains_seq(s@, pat@),
        r matches Some(i) ==> is_first_match(s@, pat@, i as int),
{
    if pat.len() > s.len() {
        assert forall|j: int| !#[trigger] matches_at(s@, pat@, j) by {}
        return None;
    }
    let last: usize = s.len() - pat.len();
    let mut i: usize = 0;
    loop
        invariant
            pat@.len() <= s@.len(),
            last == s@.len() - pat@.len(),
            i <= last,
            forall|j: int| j < i ==> !#[trigger] matches_at(s@, pat@, j),
        decreases last - i,
    {
        if chars_match_at(s, pat, i) {
            return Some(i);
        }
        if i == last {
            assert forall|j: int| !#[trigger] matches_at(s@, pat@, j) by {
                if j == last {
                }
            }
            return None;
        }
        i = i + 1;
    }
}

/// The characters of a string slice, in order.
pub fn chars_of(s: &str) -> (v: Vec<char>)
    ensures
        v@ == s@,
{
    let mut v: Vec<char> = Vec::new();
    for c in it: s.chars()
        invariant
            v@ == it.seq().take(it.index() as int),
            it.seq() == s@,
    {
        v.push(c);
    }
    v
}

/// Appends one character to a `String` (`String::push`).
#[verifier::external_body]
fn push_char(s: &mut String, c: char)
    ensures
        final(s)@ == old(s)@.push(c),
{
    s.push(c);
}

/// Builds a `String` holding exactly the characters of `v@`.
pub fn string_from_chars(v: &[char]) -> (s: String)
    ensures
        s@ == v@,
{
    let mut s = String::new();
    let mut i: usize = 0;
    while i < v.len()
        invariant
            i <= v@.len(),
            s@ == v@.take(i as int),
        decreases v@.len() - i,
    {
        push_char(&mut s, v[i]);
        assert(v@.take(i as int).push(v@[i as int]) =~= v@.take(i + 1));
        i = i + 1;
    }
    assert(v@.take(v@.len() as int) =~= v@);
    s
}

/// The pieces of `s` between occurrences of `sep`, as `str::split` with a
/// one-character separator produces them: there is always at least one piece,
/// and `k` separators give `k + 1` pieces.
pub open spec fn split_on(s: Seq<char>, sep: char) -> Seq<Seq<char>>
    decreases s.len(),
{
    if s.len() == 0 {
        seq![Seq::<char>::empty()]
    } else {
        let rest = split_on(s.drop_last(), sep);
        if s.last() == sep {
            rest.push(Seq::<char>::empty())
        } else {
            rest.update(rest.len() - 1, rest.last().push(s.last()))
        }
    }
}

/// `split_on` never yields an empty list of pieces.
pub proof fn lemma_split_on_nonempty(s: Seq<char>, sep: char)
    ensures
        split_on(s, sep).len() >= 1,
    decreases s.len(),
{
    if s.len() > 0 {
        lemma_split_on_nonempty(s.drop_last(), sep);
    }
}

/// Splits `s` at every `sep`, as `str::split` does.
pub fn split_chars(s: &[char], sep: char) -> (r: Vec<Vec<char>>)
    ensures
        r@.len() == split_on(s@, sep).len(),
        forall|k: int| 0 <= k < r@.len() ==> #[trigger] r@[k]@ == split_on(s@, sep)[k],
{
    let mut done: Vec<Vec<char>> = Vec::new();
    let mut cur: Vec<char> = Vec::new();
    let mut i: usize = 0;
    while i < s.len()
        invariant
            i <= s@.len(),
            done@.len() + 1 == split_on(s@.take(i as int), sep).len(),
            forall|k: int| 0 <= k < done@.len() ==> #[trigger] done@[k]@ == split_on(
                s@.take(i as int),
                sep,
            )[k],
            cur@ == split_on(s@.take(i as int), sep).last(),
        decreases s@.len() - i,
    {
        let c = s[i];
        proof {
            assert(s@.take(i + 1).drop_last() =~= s@.take(i as int));
            assert(s@.take(i + 1).last() == c);
            lemma_split_on_nonempty(s@.take(i as int), sep);
        }
        if c == sep {
            let piece = cur;
            done.push(piece);
            cur = Vec::new();
        } else {
            cur.push(c);
        }
        i = i + 1;
    }
    proof {
        assert(s@.take(s@.len() as int) =~= s@);
    }
    let ghost before = done@;
    done.push(cur);
    proof {
        lemma_split_on_nonempty(s@, sep);
        assert forall|k: int| 0 <= k < done@.len() implies #[trigger] done@[k]@ == split_on(
            s@,
            sep,
        )[k] by {
            if k < before.len() {
                assert(done@[k] == before[k]);
            }
        }
    }
    done
}

/// The decimal digit for a value below ten.
pub open spec fn digit_char(d: int) -> char {
    if d == 0 { '0' }
    else if d == 1 { '1' }
    else if d == 2 { '2' }
    else if d == 3 { '3' }
    else if d == 4 { '4' }
    else if d == 5 { '5' }
    else if d == 6 { '6' }
    else if d == 7 { '7' }
    else if d == 8 { '8' }
    else { '9' }
}

/// The decimal digits of a natural number, without leading zeros.
pub open spec fn decimal_digits(n: nat) -> Seq<char>
    decreases n,
{
    if n < 10 {
        seq![digit_char(n as int)]
    } else {
        decimal_digits(n / 10).push(digit_char((n % 10) as int))
    }
}

/// The decimal text of an integer, as `Display` writes it: a `-` before the
/// digits of a negative number.
pub open spec fn decimal_text(n: int) -> Seq<char> {
    if n < 0 {
        seq!['-'] + decimal_digits((-n) as nat)
    } else {
        decimal_digits(n as nat)
    }
}

fn digit_of(d: u64) -> (c: char)
    requires
        d < 10,
    ensures
        c == digit_char(d as int),
{
    if d == 0 { '0' }
    else if d == 1 { '1' }
    else if d == 2 { '2' }
    else if d == 3 { '3' }
    else if d == 4 { '4' }
    else if d == 5 { '5' }
    else if d == 6 { '6' }
    else if d == 7 { '7' }
    else if d == 8 { '8' }
    else { '9' }
}

/// The decimal digits of `n`.
pub fn digits_of(n: u64) -> (v: Vec<char>)
    ensures
        v@ == decimal_digits(n as nat),
    decreases n,
{
    if n < 10 {
        let mut v: Vec<char> = Vec::new();
        v.push(digit_of(n));
        v
    } else {
        let mut v = digits_of(n / 10);
        v.push(digit_of(n % 10));
        v
    }
}

/// The decimal text of `n`.
pub fn decimal_of(n: i64) -> (v: Vec<char>)
    ensures
        v@ == decimal_text(n as int),
{
    if n < 0 {
        let m: u64 = if n == i64::MIN {
            9223372036854775808u64
        } else {
            (-n) as u64
        };
        let mut v: Vec<char> = vec!['-'];
        let mut d = digits_of(m);
        v.append(&mut d);
        assert(v@ =~= seq!['-'] + decimal_digits((-n) as nat));
        v
    } else {
        digits_of(n as u64)
    }
}

/// A text without the separator is a single piece.
pub proof fn lemma_split_on_single(s: Seq<char>, sep: char)
    requires
        !s.contains(sep),
    ensures
        split_on(s, sep) == seq![s],
    decreases s.len(),
{
    if s.len() == 0 {
        assert(s =~= Seq::<char>::empty());
        assert(split_on(s, sep) =~= seq![s]);
    } else {
        let d = s.drop_last();
        assert(!d.contains(sep)) by {
            if d.contains(sep) {
                let k = choose|k: int| 0 <= k < d.len() && d[k] == sep;
                assert(s[k] == sep);
            }
        }
        lemma_split_on_single(d, sep);
        assert(s.last() != sep) by {
            assert(s[s.len() - 1] == s.last());
        }
        assert(d.push(s.last()) =~= s);
        let rest = split_on(d, sep);
        assert(rest.last() == d);
        assert(rest.update(0, d.push(s.last())) =~= seq![s]);
        assert(split_on(s, sep) =~= seq![s]);
    }
}

/// Splitting around one separator splits each side on its own.
pub proof fn lemma_split_on_concat(a: Seq<char>, b: Seq<char>, sep: char)
    ensures
        split_on(a + seq![sep] + b, sep) == split_on(a, sep) + split_on(b, sep),
    decreases b.len(),
{
    let s = a + seq![sep] + b;
    if b.len() == 0 {
        assert(s.drop_last() =~= a);
        assert(split_on(s, sep) =~= split_on(a, sep) + split_on(b, sep));
    } else {
        let bd = b.drop_last();
        assert(s.drop_last() =~= a + seq![sep] + bd);
        assert(s.last() == b.last());
        lemma_split_on_concat(a, bd, sep);
        lemma_split_on_nonempty(a, sep);
        lemma_split_on_nonempty(bd, sep);
        let sa = split_on(a, sep);
        let sb = split_on(bd, sep);
        if b.last() == sep {
            assert(split_on(s, sep) =~= sa + split_on(b, sep));
        } else {
            assert((sa + sb).update((sa + sb).len() - 1, (sa + sb).last().push(b.last())) =~= sa
                + sb.update(sb.len() - 1, sb.last().push(b.last())));
            assert(split_on(s, sep) =~= sa + split_on(b, sep));
        }
    }
}

/// No piece holds the separator.
pub proof fn lemma_split_on_pieces_lack_sep(s: Seq<char>, sep: char, k: int)
    requires
        0 <= k < split_on(s, sep).len(),
    ensures
        !split_on(s, sep)[k].contains(sep),
    decreases s.len(),
{
    if s.len() > 0 {
        let rest = split_on(s.drop_last(), sep);
        lemma_split_on_nonempty(s.drop_last(), sep);
        if s.last() == sep {
            if k < rest.len() {
                lemma_split_on_pieces_lack_sep(s.drop_last(), sep, k);
            }
        } else {
            lemma_split_on_pieces_lack_sep(s.drop_last(), sep, k);
            if k == rest.len() - 1 {
                let p = rest.last().push(s.last());
                assert(split_on(s, sep)[k] == p);
                lemma_split_on_pieces_lack_sep(s.drop_last(), sep, rest.len() - 1);
                assert(!p.contains(sep)) by {
                    if p.contains(sep) {
                        let j = choose|j: int| 0 <= j < p.len() && p[j] == sep;
                        if j < rest.last().len() {
                            assert(rest.last()[j] == sep);
                        }
                    }
                }
            }
        }
    }
}

} // verus!
