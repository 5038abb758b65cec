//! Character-sequence helpers shared by the tokenizer, the parser and the generator.
//!
//! Every string is modelled by its sequence of characters (`s@`); a list of
//! strings by the sequence of those sequences (`views`).
use vstd::prelude::*;
use vstd::std_specs::iter::IteratorSpec;

verus! {

/// The character sequences of a list of strings.
pub open spec fn views(v: Seq<String>) -> Seq<Seq<char>> {
    Seq::new(v.len(), |i: int| v[i]@)
}

/// The views of a list after a push.
pub proof fn lemma_views_push(v: Seq<String>, x: String)
    ensures
        views(v.push(x)) == views(v).push(x@),
{
    assert(views(v.push(x)) =~= views(v).push(x@));
}

/// One more element of a prefix of the views.
pub proof fn lemma_views_take_next(v: Seq<String>, k: int)
    requires
        0 <= k < v.len(),
    ensures
        views(v).take(k + 1) == views(v).take(k).push(v[k]@),
        views(v).subrange(0, k + 1) == views(v).subrange(0, k).push(v[k]@),
{
    assert(views(v).take(k + 1) =~= views(v).take(k).push(v[k]@));
    assert(views(v).subrange(0, k + 1) =~= views(v).subrange(0, k).push(v[k]@));
}

/// `pat` occurs in `s` at position `k`.
pub open spec fn matches_at(s: Seq<char>, pat: Seq<char>, k: int) -> bool {
    0 <= k && k + pat.len() <= s.len() && s.subrange(k, k + pat.len()) == pat
}

/// Whether `needle` occurs in `hay` as a contiguous run of characters.
pub open spec fn has_substring(hay: Seq<char>, needle: Seq<char>) -> bool {
    exists|k: int| #[trigger] matches_at(hay, needle, k)
}

/// The leftmost position at or after `k` where `pat` occurs in `s`, or -1.
pub open spec fn first_match_from(s: Seq<char>, pat: Seq<char>, k: int) -> int
    decreases s.len() + 1 - k,
{
    if k < 0 || k + pat.len() > s.len() {
        -1
    } else if matches_at(s, pat, k) {
        k
    } else {
        first_match_from(s, pat, k + 1)
    }
}

/// The pieces of `s` between the leftmost non-overlapping occurrences of `pat`,
/// as `str::split` gives them for a non-empty pattern.
pub open spec fn split_on(s: Seq<char>, pat: Seq<char>) -> Seq<Seq<char>>
    decreases s.len(),
{
    let k = first_match_from(s, pat, 0);
    if pat.len() == 0 || k < 0 {
        seq![s]
    } else {
        proof {
            lemma_first_match_bounds(s, pat, 0);
        }
        seq![s.subrange(0, k)] + split_on(s.subrange(k + pat.len(), s.len() as int), pat)
    }
}

/// The parts glued together with `sep` between neighbours, as `join` does.
pub open spec fn join(parts: Seq<Seq<char>>, sep: Seq<char>) -> Seq<char>
    decreases parts.len(),
{
    if parts.len() == 0 {
        Seq::empty()
    } else if parts.len() == 1 {
        parts[0]
    } else {
        join(parts.drop_last(), sep) + sep + parts.last()
    }
}

/// The parts glued together with nothing between them, as `concat` does.
pub open spec fn concat(parts: Seq<Seq<char>>) -> Seq<char> {
    join(parts, Seq::empty())
}

/// The characters that `split_ascii_whitespace` separates on.
pub open spec fn is_ascii_space(c: char) -> bool {
    c == ' ' || c == '\t' || c == '\n' || c == '\r' || c == '\x0C'
}

/// The maximal runs of non-whitespace characters of `s`, from the left, starting
/// with `cur` as the run in progress; `split_ascii_whitespace` is `words(s, [])`.
pub open spec fn words_from(s: Seq<char>, cur: Seq<char>) -> Seq<Seq<char>>
    decreases s.len(),
{
    if s.len() == 0 {
        if cur.len() == 0 {
            Seq::empty()
        } else {
            seq![cur]
        }
    } else if is_ascii_space(s[0]) {
        if cur.len() == 0 {
            words_from(s.drop_first(), cur)
        } else {
            seq![cur] + words_from(s.drop_first(), Seq::empty())
        }
    } else {
        words_from(s.drop_first(), cur.push(s[0]))
    }
}

/// The whitespace-separated words of `s`.
pub open spec fn words(s: Seq<char>) -> Seq<Seq<char>> {
    words_from(s, Seq::empty())
}

/// The character of decimal digit `d`.
pub open spec fn digit_char(d: int) -> char {
    ('0' as int + d) as char
}

/// Decimal digits of a natural number, without leading zeros.
pub open spec fn nat_decimal(n: nat) -> Seq<char>
    decreases n,
{
    if n < 10 {
        seq![digit_char(n as int)]
    } else {
        nat_decimal(n / 10) + seq![digit_char((n % 10) as int)]
    }
}

/// The decimal text of an integer, with a leading `-` when it is negative.
pub open spec fn decimal(n: int) -> Seq<char> {
    if n < 0 {
        seq!['-'] + nat_decimal((-n) as nat)
    } else {
        nat_decimal(n as nat)
    }
}

/// The value of a sequence of ASCII digits, read left to right.
pub open spec fn digits_value(s: Seq<char>) -> nat
    decreases s.len(),
{
    if s.len() == 0 {
        0
    } else {
        digits_value(s.drop_last()) * 10 + ((s.last() as int - '0' as int) as nat)
    }
}

/// Whether every character is an ASCII digit.
pub open spec fn all_ascii_digits(s: Seq<char>) -> bool {
    forall|k: int| 0 <= k < s.len() ==> '0' <= #[trigger] s[k] <= '9'
}

/// What `s.parse::<usize>()` gives: an optional `+`, then at least one ASCII
/// digit, with a value that fits in `usize`.
pub open spec fn parsed_usize(s: Seq<char>) -> Option<usize> {
    let body = if s.len() > 0 && s[0] == '+' { s.drop_first() } else { s };
    if body.len() > 0 && all_ascii_digits(body) && digits_value(body) <= usize::MAX {
        Some(digits_value(body) as usize)
    } else {
        None
    }
}

/// The characters of a string slice, in order (those `str::chars` yields).
pub(crate) fn chars_of(s: &str) -> (v: Vec<char>)
    ensures
        v@ == s@,
{
    broadcast use vstd::string::axiom_spec_iter;

    let mut it = s.chars();
    let mut v: Vec<char> = Vec::new();
    loop
        invariant
            v@ + it.remaining() == s@,
            it.decrease() is Some,
        ensures
            v@ == s@,
        decreases it.decrease()->0,
    {
        match it.next() {
            Some(c) => {
                v.push(c);
                assert(v@ + it.remaining() =~= s@);
            },
            None => {
                assert(v@ =~= s@);
                break;
            },
        }
    }
    v
}

/// A string made of the given characters (`FromIterator<char>` for `String`).
#[verifier::external_body]
pub(crate) fn string_of(v: &[char]) -> (s: String)
    ensures
        s@ == v@,
{
    v.iter().collect()
}

/// The character of a decimal digit.
fn digit_of(d: u64) -> (c: char)
    requires
        d < 10,
    ensures
        c == digit_char(d as int),
{
    let b: u8 = (d as u8) + 48u8;
    b as char
}

/// The decimal digits of a natural number.
fn nat_digits(n: u64) -> (v: Vec<char>)
    ensures
        v@ == nat_decimal(n as nat),
    decreases n,
{
    if n < 10 {
        let mut v: Vec<char> = Vec::new();
        v.push(digit_of(n));
        assert(v@ =~= seq![digit_char(n as int)]);
        v
    } else {
        let mut v = nat_digits(n / 10);
        v.push(digit_of(n % 10));
        assert(v@ =~= nat_decimal((n / 10) as nat) + seq![digit_char((n % 10) as int)]);
        v
    }
}

/// The decimal text of an integer, in base ten with a leading minus sign
/// for negative values (what `ToString` for `i64` gives).
pub(crate) fn decimal_string(n: i64) -> (s: String)
    ensures
        s@ == decimal(n as int),
{
    if n < 0 {
        let m: u64 = ((-(n + 1)) as u64) + 1;
        let mut v: Vec<char> = Vec::new();
        v.push('-');
        let d = nat_digits(m);
        let mut k: usize = 0;
        while k < d.len()
            invariant
                k <= d.len(),
                v@ == seq!['-'] + d@.subrange(0, k as int),
            decreases d.len() - k,
        {
            v.push(d[k]);
            k = k + 1;
            assert(v@ =~= seq!['-'] + d@.subrange(0, k as int));
        }
        assert(d@.subrange(0, d.len() as int) =~= d@);
        string_of(v.as_slice())
    } else {
        let d = nat_digits(n as u64);
        string_of(d.as_slice())
    }
}

/// The decimal text of an unsigned size (what `ToString` for `usize` gives).
pub(crate) fn decimal_usize(n: usize) -> (s: String)
    ensures
        s@ == decimal(n as int),
{
    let d = nat_digits(n as u64);
    string_of(d.as_slice())
}

/// A string holding the literal's characters.
pub fn lit(s: &str) -> (r: String)
    ensures
        r@ == s@,
{
    String::from_str(s)
}

/// A one-character string.
pub fn char_string(c: char) -> (r: String)
    ensures
        r@ == seq![c],
{
    let v = vec![c];
    let r = string_of(v.as_slice());
    assert(v@ =~= seq![c]);
    r
}

/// Whether two strings hold the same characters.
pub fn same(a: &str, b: &str) -> (r: bool)
    ensures
        r == (a@ == b@),
{
    let x = chars_of(a);
    let y = chars_of(b);
    if x.len() != y.len() {
        return false;
    }
    let mut k: usize = 0;
    while k < x.len()
        invariant
            x@ == a@,
            y@ == b@,
            x.len() == y.len(),
            k <= x.len(),
            forall|t: int| 0 <= t < k ==> x@[t] == y@[t],
        decreases x.len() - k,
    {
        if x[k] != y[k] {
            return false;
        }
        k += 1;
    }
    assert(x@ =~= y@);
    true
}

/// Whether `pat` occurs in `s` at position `k` (exec form on characters).
fn matches_at_exec(s: &Vec<char>, pat: &Vec<char>, k: usize) -> (r: bool)
    requires
        k + pat.len() <= s.len(),
    ensures
        r == matches_at(s@, pat@, k as int),
{
    let mut t: usize = 0;
    while t < pat.len()
        invariant
            k + pat.len() <= s.len(),
            t <= pat.len(),
            forall|u: int| 0 <= u < t ==> s@[k + u] == pat@[u],
        decreases pat.len() - t,
    {
        if s[k + t] != pat[t] {
            assert(s@.subrange(k as int, k + pat@.len())[t as int] != pat@[t as int]);
            return false;
        }
        t += 1;
    }
    assert(s@.subrange(k as int, k + pat@.len()) =~= pat@);
    true
}

/// Where the leftmost match lies, and that nothing matches before it.
pub proof fn lemma_first_match_bounds(s: Seq<char>, pat: Seq<char>, k: int)
    requires
        0 <= k,
    ensures
        first_match_from(s, pat, k) == -1 || (k <= first_match_from(s, pat, k) && matches_at(
            s,
            pat,
            first_match_from(s, pat, k),
        )),
        first_match_from(s, pat, k) == -1 ==> forall|j: int|
            k <= j ==> !#[trigger] matches_at(s, pat, j),
        first_match_from(s, pat, k) != -1 ==> forall|j: int|
            k <= j < first_match_from(s, pat, k) ==> !#[trigger] matches_at(s, pat, j),
    decreases s.len() + 1 - k,
{
    if k + pat.len() > s.len() {
    } else if !matches_at(s, pat, k) {
        lemma_first_match_bounds(s, pat, k + 1);
    }
}

/// The leftmost occurrence of `pat` in `s` at or after `k`.
fn find_from(s: &Vec<char>, pat: &Vec<char>, k: usize) -> (r: Option<usize>)
    ensures
        r == (if first_match_from(s@, pat@, k as int) < 0 {
            None::<usize>
        } else {
            Some(first_match_from(s@, pat@, k as int) as usize)
        }),
{
    proof {
        lemma_first_match_bounds(s@, pat@, k as int);
    }
    if pat.len() > s.len() {
        return None;
    }
    let last = s.len() - pat.len();
    if k > last {
        return None;
    }
    let mut j: usize = k;
    loop
        invariant
            pat.len() <= s.len(),
            last == s.len() - pat.len(),
            k <= j <= last,
            first_match_from(s@, pat@, k as int) == first_match_from(s@, pat@, j as int),
        decreases last - j,
    {
        if matches_at_exec(s, pat, j) {
            return Some(j);
        }
        if j == last {
            assert(first_match_from(s@, pat@, j + 1) == -1);
            return None;
        }
        j += 1;
    }
}

/// Whether `hay` contains `needle`, as `str::contains` answers it.
pub fn contains(hay: &str, needle: &str) -> (b: bool)
    ensures
        b == has_substring(hay@, needle@),
{
    let h = chars_of(hay);
    let n = chars_of(needle);
    let r = find_from(&h, &n, 0);
    proof {
        lemma_first_match_bounds(h@, n@, 0);
    }
    r.is_some()
}

/// A copy of the characters `v[a..b]`.
pub fn sub_chars(v: &Vec<char>, a: usize, b: usize) -> (r: Vec<char>)
    requires
        a <= b <= v.len(),
    ensures
        r@ == v@.subrange(a as int, b as int),
{
    let mut r: Vec<char> = Vec::new();
    let mut k = a;
    while k < b
        invariant
            a <= k <= b <= v.len(),
            r@ == v@.subrange(a as int, k as int),
        decreases b - k,
    {
        r.push(v[k]);
        k += 1;
        assert(r@ =~= v@.subrange(a as int, k as int));
    }
    r
}

/// The pieces of `s` between the occurrences of `sep` (`str::split`).
pub fn split(s: &str, sep: &str) -> (r: Vec<String>)
    requires
        sep@.len() > 0,
    ensures
        views(r@) == split_on(s@, sep@),
{
    let pat = chars_of(sep);
    let mut rest = chars_of(s);
    let mut out: Vec<String> = Vec::new();
    loop
        invariant
            pat@ == sep@,
            pat@.len() > 0,
            views(out@) + split_on(rest@, pat@) == split_on(s@, sep@),
        decreases rest@.len(),
    {
        let found = find_from(&rest, &pat, 0);
        let rl = rest.len();
        proof {
            assert(rest@.len() == rl);
            lemma_first_match_bounds(rest@, pat@, 0);
            let f = first_match_from(rest@, pat@, 0);
            if f >= 0 {
                assert(found == Some(f as usize));
            }
        }
        match found {
            None => {
                let piece = string_of(rest.as_slice());
                let ghost before = out@;
                out.push(piece);
                assert(views(out@) =~= views(before) + seq![rest@]);
                assert(views(out@) =~= views(before) + split_on(rest@, pat@));
                return out;
            },
            Some(k) => {
                let ghost f = first_match_from(rest@, pat@, 0);
                assert(f != -1);
                assert(matches_at(rest@, pat@, f));
                assert(f + pat@.len() <= rest@.len());
                assert(k as int == f);
                let head = sub_chars(&rest, 0, k);
                let tail = sub_chars(&rest, k + pat.len(), rest.len());
                let piece = string_of(head.as_slice());
                let ghost before = out@;
                let ghost old_rest = rest@;
                out.push(piece);
                rest = tail;
                assert(views(out@) =~= views(before) + seq![old_rest.subrange(0, k as int)]);
                assert(split_on(old_rest, pat@) == seq![old_rest.subrange(0, k as int)] + split_on(
                    rest@,
                    pat@,
                ));
                assert(views(out@) + split_on(rest@, pat@) =~= views(before) + split_on(
                    old_rest,
                    pat@,
                ));
            },
        }
    }
}

/// The parts glued together with `sep` between neighbours (`join`).
pub fn join_strings(parts: &[String], sep: &str) -> (r: String)
    ensures
        r@ == join(views(parts@), sep@),
{
    let mut r = String::new();
    let mut k: usize = 0;
    while k < parts.len()
        invariant
            k <= parts@.len(),
            r@ == join(views(parts@).take(k as int), sep@),
        decreases parts.len() - k,
    {
        let ghost prev = views(parts@).take(k as int);
        if k > 0 {
            r.append(sep);
        }
        r.append(parts[k].as_str());
        k += 1;
        proof {
            let cur = views(parts@).take(k as int);
            assert(cur.drop_last() =~= prev);
            assert(cur.last() == parts@[k - 1]@);
            if k == 1 {
                assert(r@ =~= join(cur, sep@));
            }
        }
    }
    assert(views(parts@).take(parts@.len() as int) =~= views(parts@));
    r
}

/// The parts glued together (`concat`).
pub fn concat_strings(parts: &[String]) -> (r: String)
    ensures
        r@ == concat(views(parts@)),
{
    proof {
        reveal_strlit("");
        assert(""@ =~= Seq::<char>::empty());
    }
    join_strings(parts, "")
}

/// The whitespace-separated words of `s` (`split_ascii_whitespace`).
pub fn split_words(s: &str) -> (r: Vec<String>)
    ensures
        views(r@) == words(s@),
{
    let c = chars_of(s);
    let mut out: Vec<String> = Vec::new();
    let mut cur: Vec<char> = Vec::new();
    let mut k: usize = 0;
    assert(c@.subrange(0, c@.len() as int) =~= s@);
    assert(views(out@) =~= Seq::<Seq<char>>::empty());
    assert(cur@ =~= Seq::<char>::empty());
    while k < c.len()
        invariant
            c@ == s@,
            k <= c.len(),
            views(out@) + words_from(c@.subrange(k as int, c@.len() as int), cur@) == words(s@),
        decreases c.len() - k,
    {
        let ghost rest = c@.subrange(k as int, c@.len() as int);
        let ghost before = out@;
        let ghost cur0 = cur@;
        assert(rest.drop_first() =~= c@.subrange(k + 1, c@.len() as int));
        let ch = c[k];
        if ch == ' ' || ch == '\t' || ch == '\n' || ch == '\r' || ch == '\x0C' {
            if cur.len() > 0 {
                let w = string_of(cur.as_slice());
                out.push(w);
                cur = Vec::new();
                assert(views(out@) =~= views(before) + seq![cur0]);
                assert(cur@ =~= Seq::<char>::empty());
            }
        } else {
            cur.push(ch);
        }
        k += 1;
        proof {
            if !is_ascii_space(ch) {
                assert(cur@ == cur0.push(ch));
            } else if cur0.len() > 0 {
                assert(views(out@) + words_from(c@.subrange(k as int, c@.len() as int), cur@)
                    =~= views(before) + (seq![cur0] + words_from(rest.drop_first(), Seq::empty())));
            }
        }
    }
    assert(c@.subrange(k as int, c@.len() as int) =~= Seq::<char>::empty());
    if cur.len() > 0 {
        let ghost before = out@;
        let w = string_of(cur.as_slice());
        out.push(w);
        assert(views(out@) =~= views(before) + seq![cur@]);
    } else {
        assert(views(out@) =~= views(out@) + Seq::<Seq<char>>::empty());
    }
    out
}

proof fn lemma_digits_value_grows(s: Seq<char>, m: int)
    requires
        0 <= m <= s.len(),
        all_ascii_digits(s),
    ensures
        digits_value(s.take(m)) <= digits_value(s),
    decreases s.len() - m,
{
    if m < s.len() {
        lemma_digits_value_grows(s, m + 1);
        let t = s.take(m + 1);
        assert(t.drop_last() =~= s.take(m));
        assert('0' <= s[m] <= '9');
    } else {
        assert(s.take(m) =~= s);
    }
}

/// What `s.parse::<usize>()` returns, `None` standing for its error.
pub fn parse_usize(s: &str) -> (r: Option<usize>)
    ensures
        r == parsed_usize(s@),
{
    let c = chars_of(s);
    let start: usize = if c.len() > 0 && c[0] == '+' { 1 } else { 0 };
    let ghost body = if s@.len() > 0 && s@[0] == '+' { s@.drop_first() } else { s@ };
    assert(body =~= c@.subrange(start as int, c@.len() as int));
    if start >= c.len() {
        return None;
    }
    let mut k = start;
    let mut acc: usize = 0;
    while k < c.len()
        invariant
            c@ == s@,
            body == c@.subrange(start as int, c@.len() as int),
            body == (if s@.len() > 0 && s@[0] == '+' { s@.drop_first() } else { s@ }),
            start <= k <= c.len(),
            all_ascii_digits(body.take(k - start)),
            acc as nat == digits_value(body.take(k - start)),
        decreases c.len() - k,
    {
        let ch = c[k];
        let ghost t = body.take(k + 1 - start);
        assert(t.drop_last() =~= body.take(k - start));
        assert(t.last() == ch);
        if ch < '0' || ch > '9' {
            assert(!all_ascii_digits(body));
            return None;
        }
        let d = (ch as u32 - '0' as u32) as usize;
        if acc > (usize::MAX - d) / 10 {
            proof {
                assert(digits_value(t) == acc * 10 + d);
                assert(acc * 10 + d > usize::MAX) by (nonlinear_arith)
                    requires
                        acc > (usize::MAX - d) / 10,
                        d <= 9,
                ;
                if all_ascii_digits(body) {
                    lemma_digits_value_grows(body, k + 1 - start);
                }
            }
            return None;
        }
        assert(acc * 10 + d <= usize::MAX) by (nonlinear_arith)
            requires
                acc <= (usize::MAX - d) / 10,
                d <= 9,
        ;
        acc = acc * 10 + d;
        k += 1;
        assert(all_ascii_digits(t));
    }
    assert(body.take(k - start) =~= body);
    Some(acc)
}

} // verus!
