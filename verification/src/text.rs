//! Text helpers shared by the rest of the library: decimal numbers, splitting
//! and trimming. Text is modelled as the sequence of its characters.

use vstd::arithmetic::power::{lemma_pow0, lemma_pow1, lemma_pow_adds, pow};
use vstd::prelude::*;
use vstd::string::*;

verus! {

/// The character of the decimal digit `d`.
pub open spec fn digit_char(d: nat) -> char {
    ('0' as nat + d) as char
}

/// `n` in decimal, without leading zeros.
pub open spec fn decimal_text(n: nat) -> Seq<char>
    decreases n,
{
    if n < 10 {
        seq![digit_char(n)]
    } else {
        decimal_text(n / 10).push(digit_char(n % 10))
    }
}

/// Whether `c` is an ASCII decimal digit.
pub open spec fn is_digit(c: char) -> bool {
    '0' <= c <= '9'
}

/// The number that `c` stands for as a decimal digit.
pub open spec fn digit_value(c: char) -> nat {
    (c as nat - '0' as nat) as nat
}

/// Whether every character is a decimal digit.
pub open spec fn all_digits(s: Seq<char>) -> bool {
    forall|i: int| 0 <= i < s.len() ==> is_digit(#[trigger] s[i])
}

/// The number that a run of decimal digits stands for.
pub open spec fn decimal_value(s: Seq<char>) -> nat
    decreases s.len(),
{
    if s.len() == 0 {
        0
    } else {
        10 * decimal_value(s.drop_last()) + digit_value(s.last())
    }
}

/// `s` without one leading plus sign, if it has one.
pub open spec fn unsigned_part(s: Seq<char>) -> Seq<char> {
    if s.len() > 0 && s[0] == '+' {
        s.skip(1)
    } else {
        s
    }
}

/// The `u32` written in `s`: an optional plus sign and one or more decimal
/// digits, whose value fits.
pub open spec fn u32_in(s: Seq<char>) -> Option<u32> {
    let digits = unsigned_part(s);
    if digits.len() > 0 && all_digits(digits) && decimal_value(digits) <= u32::MAX {
        Some(decimal_value(digits) as u32)
    } else {
        None
    }
}

/// Three numbers in decimal, with dots between them.
pub open spec fn dotted_text(a: u32, b: u32, c: u32) -> Seq<char> {
    decimal_text(a as nat) + seq!['.'] + decimal_text(b as nat) + seq!['.'] + decimal_text(c as nat)
}

/// The index of the first character of `s` that satisfies `sep`, or the length
/// of `s`.
pub open spec fn first_index(s: Seq<char>, sep: spec_fn(char) -> bool) -> int
    decreases s.len(),
{
    if s.len() == 0 || sep(s[0]) {
        0
    } else {
        1 + first_index(s.skip(1), sep)
    }
}

/// The parts of `s` between the characters that satisfy `sep`. There is one
/// part more than there are such characters, and a part can be empty.
pub open spec fn split_by(s: Seq<char>, sep: spec_fn(char) -> bool) -> Seq<Seq<char>>
    decreases s.len(),
{
    let n = first_index(s, sep);
    if 0 <= n < s.len() {
        seq![s.take(n)] + split_by(s.skip(n + 1), sep)
    } else {
        seq![s]
    }
}

/// The predicate that holds of the character `c` alone.
pub open spec fn is_char(c: char) -> spec_fn(char) -> bool {
    |x: char| x == c
}

/// Whether `c` has the Unicode property White_Space.
pub open spec fn is_white(c: char) -> bool {
    ||| '\u{9}' <= c <= '\u{d}'
    ||| c == '\u{20}'
    ||| c == '\u{85}'
    ||| c == '\u{a0}'
    ||| c == '\u{1680}'
    ||| '\u{2000}' <= c <= '\u{200a}'
    ||| c == '\u{2028}'
    ||| c == '\u{2029}'
    ||| c == '\u{202f}'
    ||| c == '\u{205f}'
    ||| c == '\u{3000}'
}

/// The words of `s`: its parts between white space, without the empty ones.
pub open spec fn words(s: Seq<char>) -> Seq<Seq<char>> {
    split_by(s, |c: char| is_white(c)).filter(|w: Seq<char>| w.len() > 0)
}

/// `s` without its leading white space.
pub open spec fn trim_start(s: Seq<char>) -> Seq<char>
    decreases s.len(),
{
    if s.len() > 0 && is_white(s[0]) {
        trim_start(s.skip(1))
    } else {
        s
    }
}

/// `s` without its trailing characters that satisfy `p`.
pub open spec fn trim_end_by(s: Seq<char>, p: spec_fn(char) -> bool) -> Seq<char>
    decreases s.len(),
{
    if s.len() > 0 && p(s.last()) {
        trim_end_by(s.drop_last(), p)
    } else {
        s
    }
}

/// `s` without its leading and trailing white space.
pub open spec fn trimmed(s: Seq<char>) -> Seq<char> {
    trim_end_by(trim_start(s), |c: char| is_white(c))
}

/// The texts that a vector of strings holds.
pub open spec fn texts(v: Seq<String>) -> Seq<Seq<char>> {
    v.map_values(|s: String| s@)
}

/// The characters of `s`, as a vector that can be indexed.
pub fn chars_of(s: &str) -> (r: Vec<char>)
    ensures
        r@ == s@,
{
    let mut r: Vec<char> = Vec::new();
    for c in it: s.chars()
        invariant
            it.seq() == s@,
            r@ == it.seq().take(it.index() as int),
    {
        proof {
            assert(it.seq().take(it.index() as int).push(c) =~= it.seq().take(it.index() + 1));
        }
        r.push(c);
    }
    assert(s@.take(s@.len() as int) =~= s@);
    r
}

/// Appends one decimal digit.
fn push_digit(out: &mut String, d: u64)
    requires
        d < 10,
    ensures
        final(out)@ == old(out)@.push(digit_char(d as nat)),
{
    proof {
        reveal_strlit("0");
        reveal_strlit("1");
        reveal_strlit("2");
        reveal_strlit("3");
        reveal_strlit("4");
        reveal_strlit("5");
        reveal_strlit("6");
        reveal_strlit("7");
        reveal_strlit("8");
        reveal_strlit("9");
    }
    let digit = match d {
        0 => "0",
        1 => "1",
        2 => "2",
        3 => "3",
        4 => "4",
        5 => "5",
        6 => "6",
        7 => "7",
        8 => "8",
        _ => "9",
    };
    assert(digit@ =~= seq![digit_char(d as nat)]);
    out.append(digit);
    assert(out@ =~= old(out)@.push(digit_char(d as nat)));
}

/// Appends `n` in decimal.
pub fn push_decimal(out: &mut String, n: u64)
    ensures
        final(out)@ == old(out)@ + decimal_text(n as nat),
    decreases n,
{
    if n < 10 {
        push_digit(out, n);
        assert(out@ =~= old(out)@ + decimal_text(n as nat));
    } else {
        push_decimal(out, n / 10);
        push_digit(out, n % 10);
        assert(out@ =~= old(out)@ + decimal_text(n as nat));
    }
}

/// Whether `c` has the Unicode property White_Space.
pub fn is_white_space(c: char) -> (r: bool)
    ensures
        r == is_white(c),
{
    ('\u{9}' <= c && c <= '\u{d}') || c == '\u{20}' || c == '\u{85}' || c == '\u{a0}' || c
        == '\u{1680}' || ('\u{2000}' <= c && c <= '\u{200a}') || c == '\u{2028}' || c == '\u{2029}'
        || c == '\u{202f}' || c == '\u{205f}' || c == '\u{3000}'
}

/// No character before the first index satisfies `sep`, and the one there does.
pub proof fn lemma_first_index(s: Seq<char>, sep: spec_fn(char) -> bool)
    ensures
        0 <= first_index(s, sep) <= s.len(),
        forall|i: int| 0 <= i < first_index(s, sep) ==> !sep(#[trigger] s[i]),
        first_index(s, sep) < s.len() ==> sep(s[first_index(s, sep)]),
    decreases s.len(),
{
    if s.len() == 0 || sep(s[0]) {
    } else {
        let t = s.skip(1);
        lemma_first_index(t, sep);
        assert forall|i: int| 0 <= i < first_index(s, sep) implies !sep(#[trigger] s[i]) by {
            if i > 0 {
                assert(s[i] == t[i - 1]);
            }
        }
    }
}

/// The first index is the only index with these two properties.
pub proof fn lemma_first_index_is(s: Seq<char>, sep: spec_fn(char) -> bool, n: int)
    requires
        0 <= n <= s.len(),
        forall|i: int| 0 <= i < n ==> !sep(#[trigger] s[i]),
        n < s.len() ==> sep(s[n]),
    ensures
        first_index(s, sep) == n,
{
    lemma_first_index(s, sep);
    let m = first_index(s, sep);
    if m < n {
        assert(!sep(s[m]));
    }
    if n < m {
        assert(!sep(s[n]));
    }
}

/// The value of the first digits is at most the value of all of them.
proof fn lemma_prefix_value(s: Seq<char>, n: int)
    requires
        0 <= n <= s.len(),
    ensures
        decimal_value(s.take(n)) <= decimal_value(s),
    decreases s.len() - n,
{
    if n == s.len() {
        assert(s.take(n) =~= s);
    } else {
        lemma_prefix_value(s, n + 1);
        assert(s.take(n + 1).drop_last() =~= s.take(n));
    }
}

/// Reads the `u32` written in `s`.
pub fn parse_u32(s: &str) -> (r: Option<u32>)
    ensures
        r == u32_in(s@),
{
    let cs = chars_of(s);
    let start: usize = if cs.len() > 0 && cs[0] == '+' {
        1
    } else {
        0
    };
    let ghost digits = unsigned_part(s@);
    assert(digits =~= s@.skip(start as int));
    if start == cs.len() {
        return None;
    }
    let mut value: u64 = 0;
    let mut i: usize = start;
    while i < cs.len()
        invariant
            start <= i <= cs@.len(),
            cs@ == s@,
            digits == unsigned_part(s@),
            digits == s@.skip(start as int),
            all_digits(digits.take(i - start)),
            value == decimal_value(digits.take(i - start)),
            value <= u32::MAX,
        decreases cs.len() - i,
    {
        let c = cs[i];
        assert(c == digits[i - start]);
        if !('0' <= c && c <= '9') {
            assert(!is_digit(digits[i - start]));
            return None;
        }
        proof {
            assert(digits.take(i - start + 1).drop_last() =~= digits.take(i - start));
            assert(digits.take(i - start + 1).last() == c);
            lemma_prefix_value(digits, i - start + 1);
        }
        value = value * 10 + (c as u64 - '0' as u64);
        if value > 0xffff_ffff {
            return None;
        }
        i = i + 1;
    }
    assert(digits.take(digits.len() as int) =~= digits);
    Some(value as u32)
}

/// Splits `s` at every `sep`.
pub fn split_on(s: &str, sep: char) -> (r: Vec<String>)
    ensures
        texts(r@) == split_by(s@, is_char(sep)),
{
    let cs = chars_of(s);
    let mut r: Vec<String> = Vec::new();
    let mut start: usize = 0;
    let mut i: usize = 0;
    let ghost p = is_char(sep);
    assert(s@.skip(0) =~= s@);
    assert(texts(r@) + split_by(s@, p) =~= split_by(s@, p));
    while i < cs.len()
        invariant
            start <= i <= cs@.len(),
            cs@ == s@,
            p == is_char(sep),
            texts(r@) + split_by(s@.skip(start as int), p) == split_by(s@, p),
            forall|j: int| start <= j < i ==> #[trigger] s@[j] != sep,
        decreases cs.len() - i,
    {
        if cs[i] == sep {
            let part = s.substring_char(start, i).to_string();
            proof {
                let rest = s@.skip(start as int);
                lemma_first_index_is(rest, p, i - start);
                assert(rest.take(i - start) =~= s@.subrange(start as int, i as int));
                assert(rest.skip(i - start + 1) =~= s@.skip(i + 1));
                assert(texts(r@.push(part)) =~= texts(r@) + seq![part@]);
                assert(texts(r@.push(part)) + split_by(s@.skip(i + 1), p) =~= texts(r@) + split_by(
                    rest,
                    p,
                ));
            }
            r.push(part);
            start = i + 1;
        }
        i = i + 1;
    }
    let part = s.substring_char(start, cs.len()).to_string();
    proof {
        let rest = s@.skip(start as int);
        lemma_first_index_is(rest, p, rest.len() as int);
        assert(part@ =~= rest);
        assert(texts(r@.push(part)) =~= texts(r@) + seq![part@]);
    }
    r.push(part);
    r
}

/// The words of `s`, in order.
pub fn split_words(s: &str) -> (r: Vec<String>)
    ensures
        texts(r@) == words(s@),
{
    let cs = chars_of(s);
    let mut r: Vec<String> = Vec::new();
    let mut start: usize = 0;
    let mut i: usize = 0;
    let ghost p = |c: char| is_white(c);
    let ghost ne = |w: Seq<char>| w.len() > 0;
    assert(s@.skip(0) =~= s@);
    assert(texts(r@) + words(s@) =~= words(s@));
    while i < cs.len()
        invariant
            start <= i <= cs@.len(),
            cs@ == s@,
            p == (|c: char| is_white(c)),
            ne == (|w: Seq<char>| w.len() > 0),
            texts(r@) + split_by(s@.skip(start as int), p).filter(ne) == words(s@),
            forall|j: int| start <= j < i ==> !is_white(#[trigger] s@[j]),
        decreases cs.len() - i,
    {
        if is_white_space(cs[i]) {
            let ghost before = texts(r@);
            let ghost rest = s@.skip(start as int);
            let ghost part = s@.subrange(start as int, i as int);
            proof {
                lemma_first_index_is(rest, p, i - start);
                assert(rest.take(i - start) =~= part);
                assert(rest.skip(i - start + 1) =~= s@.skip(i + 1));
                lemma_filter_first(part, split_by(s@.skip(i + 1), p), ne);
            }
            if start < i {
                let word = s.substring_char(start, i).to_string();
                assert(texts(r@.push(word)) =~= before + seq![part]);
                r.push(word);
            }
            proof {
                assert(texts(r@) + split_by(s@.skip(i + 1), p).filter(ne) =~= before + split_by(
                    rest,
                    p,
                ).filter(ne));
            }
            start = i + 1;
        }
        i = i + 1;
    }
    proof {
        let rest = s@.skip(start as int);
        lemma_first_index_is(rest, p, rest.len() as int);
        lemma_filter_first(rest, Seq::empty(), ne);
        assert(seq![rest] + Seq::<Seq<char>>::empty() =~= seq![rest]);
        assert(Seq::<Seq<char>>::empty().filter(ne) =~= Seq::empty()) by {
            reveal(Seq::filter);
        }
    }
    if start < cs.len() {
        let word = s.substring_char(start, cs.len()).to_string();
        proof {
            assert(word@ =~= s@.skip(start as int));
            assert(texts(r@.push(word)) =~= texts(r@) + seq![word@]);
        }
        r.push(word);
    }
    assert(texts(r@) =~= words(s@));
    r
}

/// `s` without its leading and trailing white space.
pub fn trim(s: &str) -> (r: &str)
    ensures
        r@ == trimmed(s@),
{
    let cs = chars_of(s);
    let mut start: usize = 0;
    assert(s@.skip(0) =~= s@);
    while start < cs.len() && is_white_space(cs[start])
        invariant
            start <= cs@.len(),
            cs@ == s@,
            trim_start(s@.skip(start as int)) == trim_start(s@),
        decreases cs.len() - start,
    {
        assert(s@.skip(start as int).skip(1) =~= s@.skip(start + 1));
        start = start + 1;
    }
    let mut end: usize = cs.len();
    let ghost p = |c: char| is_white(c);
    assert(s@.subrange(start as int, end as int) =~= trim_start(s@));
    while start < end && is_white_space(cs[end - 1])
        invariant
            start <= end <= cs@.len(),
            cs@ == s@,
            p == (|c: char| is_white(c)),
            trim_end_by(s@.subrange(start as int, end as int), p) == trimmed(s@),
        decreases end,
    {
        assert(s@.subrange(start as int, end as int).drop_last() =~= s@.subrange(
            start as int,
            end - 1,
        ));
        end = end - 1;
    }
    s.substring_char(start, end)
}

/// `s` without its trailing characters that equal `c`.
pub fn trim_end_char(s: &str, c: char) -> (r: &str)
    ensures
        r@ == trim_end_by(s@, is_char(c)),
{
    let cs = chars_of(s);
    let mut end: usize = cs.len();
    assert(s@.take(end as int) =~= s@);
    while end > 0 && cs[end - 1] == c
        invariant
            end <= cs@.len(),
            cs@ == s@,
            trim_end_by(s@.take(end as int), is_char(c)) == trim_end_by(s@, is_char(c)),
        decreases end,
    {
        assert(s@.take(end as int).drop_last() =~= s@.take(end - 1));
        end = end - 1;
    }
    assert(s@.subrange(0, end as int) =~= s@.take(end as int));
    s.substring_char(0, end)
}

/// Whether `s` begins with `prefix`.
pub fn starts_with(s: &str, prefix: &str) -> (r: bool)
    ensures
        r == prefix@.is_prefix_of(s@),
{
    let cs = chars_of(s);
    let ps = chars_of(prefix);
    if cs.len() < ps.len() {
        return false;
    }
    let mut i: usize = 0;
    while i < ps.len()
        invariant
            i <= ps@.len() <= cs@.len(),
            cs@ == s@,
            ps@ == prefix@,
            forall|j: int| 0 <= j < i ==> ps@[j] == cs@[j],
        decreases ps.len() - i,
    {
        if cs[i] != ps[i] {
            assert(s@.take(ps@.len() as int)[i as int] != prefix@[i as int]);
            return false;
        }
        i = i + 1;
    }
    assert(prefix@ =~= s@.subrange(0, prefix@.len() as int));
    true
}

/// The part of `s` before its first `sep` and the part after it.
pub open spec fn split_once_at(s: Seq<char>, sep: char) -> Option<(Seq<char>, Seq<char>)> {
    let n = first_index(s, is_char(sep));
    if n < s.len() {
        Some((s.take(n), s.skip(n + 1)))
    } else {
        None
    }
}

/// Splits `s` at its first `sep`.
pub fn split_once(s: &str, sep: char) -> (r: Option<(&str, &str)>)
    ensures
        match (r, split_once_at(s@, sep)) {
            (Some((a, b)), Some((x, y))) => a@ == x && b@ == y,
            (None, None) => true,
            _ => false,
        },
{
    let cs = chars_of(s);
    let mut i: usize = 0;
    while i < cs.len() && cs[i] != sep
        invariant
            i <= cs@.len(),
            cs@ == s@,
            forall|j: int| 0 <= j < i ==> #[trigger] cs@[j] != sep,
        decreases cs.len() - i,
    {
        i = i + 1;
    }
    proof {
        lemma_first_index_is(s@, is_char(sep), i as int);
    }
    if i == cs.len() {
        None
    } else {
        assert(s@.subrange(0, i as int) =~= s@.take(i as int));
        assert(s@.subrange(i + 1, s@.len() as int) =~= s@.skip(i + 1));
        Some((s.substring_char(0, i), s.substring_char(i + 1, cs.len())))
    }
}

/// Whether two texts are the same.
pub fn same_text(a: &str, b: &str) -> (r: bool)
    ensures
        r == (a@ == b@),
{
    let xs = chars_of(a);
    let ys = chars_of(b);
    if xs.len() != ys.len() {
        return false;
    }
    let mut i: usize = 0;
    while i < xs.len()
        invariant
            i <= xs@.len() == ys@.len(),
            xs@ == a@,
            ys@ == b@,
            forall|j: int| 0 <= j < i ==> xs@[j] == ys@[j],
        decreases xs.len() - i,
    {
        if xs[i] != ys[i] {
            return false;
        }
        i = i + 1;
    }
    assert(a@ =~= b@);
    true
}

/// Filtering keeps or drops the first element, then filters the others.
proof fn lemma_filter_first<A>(x: A, rest: Seq<A>, p: spec_fn(A) -> bool)
    ensures
        (seq![x] + rest).filter(p) == (if p(x) {
            seq![x]
        } else {
            Seq::<A>::empty()
        }) + rest.filter(p),
{
    Seq::filter_distributes_over_add(seq![x], rest, p);
    reveal_with_fuel(Seq::filter, 2);
    assert(seq![x].drop_last() =~= Seq::<A>::empty());
    assert(seq![x].filter(p) =~= (if p(x) {
        seq![x]
    } else {
        Seq::<A>::empty()
    }));
}

/// Appends three numbers with dots between them.
pub fn push_dotted(out: &mut String, a: u32, b: u32, c: u32)
    ensures
        final(out)@ == old(out)@ + dotted_text(a, b, c),
{
    proof {
        reveal_strlit(".");
        assert("."@ =~= seq!['.']);
    }
    push_decimal(out, a as u64);
    out.append(".");
    push_decimal(out, b as u64);
    out.append(".");
    push_decimal(out, c as u64);
    assert(out@ =~= old(out)@ + dotted_text(a, b, c));
}

/// A number in decimal is one or more digits, and their value is the number.
pub proof fn lemma_decimal_text(n: nat)
    ensures
        decimal_text(n).len() > 0,
        all_digits(decimal_text(n)),
        decimal_value(decimal_text(n)) == n,
    decreases n,
{
    if n < 10 {
        let s = decimal_text(n);
        assert(s.drop_last() =~= Seq::<char>::empty());
        assert(decimal_value(s.drop_last()) == 0);
    } else {
        lemma_decimal_text(n / 10);
        let s = decimal_text(n);
        assert(s.drop_last() =~= decimal_text(n / 10));
    }
}

/// Reading back a number that was written in decimal gives the number.
pub proof fn law_decimal_round_trip(n: u32)
    ensures
        u32_in(decimal_text(n as nat)) == Some(n),
{
    lemma_decimal_text(n as nat);
    assert(is_digit(decimal_text(n as nat)[0]));
}

/// A text without a separator is the only part of itself.
pub proof fn lemma_split_none(s: Seq<char>, sep: char)
    requires
        !s.contains(sep),
    ensures
        split_by(s, is_char(sep)) == seq![s],
{
    lemma_first_index_is(s, is_char(sep), s.len() as int);
}

/// A text without a separator, followed by one, is the first part.
pub proof fn lemma_split_first(x: Seq<char>, rest: Seq<char>, sep: char)
    requires
        !x.contains(sep),
    ensures
        split_by(x + seq![sep] + rest, is_char(sep)) == seq![x] + split_by(rest, is_char(sep)),
{
    let s = x + seq![sep] + rest;
    let n = x.len() as int;
    assert forall|i: int| 0 <= i < n implies !is_char(sep)(#[trigger] s[i]) by {
        assert(s[i] == x[i]);
    }
    lemma_first_index_is(s, is_char(sep), n);
    assert(s.take(n) =~= x);
    assert(s.skip(n + 1) =~= rest);
}

/// Splitting three dotted numbers at the dots gives the numbers' texts.
pub proof fn lemma_split_dotted(a: u32, b: u32, c: u32)
    ensures
        split_by(dotted_text(a, b, c), is_char('.')) == seq![
            decimal_text(a as nat),
            decimal_text(b as nat),
            decimal_text(c as nat),
        ],
{
    let (x, y, z) = (decimal_text(a as nat), decimal_text(b as nat), decimal_text(c as nat));
    lemma_decimal_text(a as nat);
    lemma_decimal_text(b as nat);
    lemma_decimal_text(c as nat);
    lemma_split_none(z, '.');
    lemma_split_first(y, z, '.');
    lemma_split_first(x, y + seq!['.'] + z, '.');
    assert(x + seq!['.'] + (y + seq!['.'] + z) =~= dotted_text(a, b, c));
    assert(seq![x] + (seq![y] + seq![z]) =~= seq![x, y, z]);
}

// ---- what holds of these texts ----

/// A text with `n` times the same character.
pub open spec fn repeated(c: char, n: nat) -> Seq<char> {
    Seq::new(n, |i: int| c)
}

/// Parts with a separator between each two.
pub open spec fn joined_by(parts: Seq<Seq<char>>, sep: char) -> Seq<char>
    decreases parts.len(),
{
    if parts.len() == 0 {
        Seq::empty()
    } else if parts.len() == 1 {
        parts[0]
    } else {
        parts[0] + seq![sep] + joined_by(parts.skip(1), sep)
    }
}

/// The digits of a number count by their place: those in front of the last `n`
/// count for a power of ten more.
pub proof fn law_digits_count_by_place(a: Seq<char>, b: Seq<char>)
    ensures
        decimal_value(a + b) == decimal_value(a) * pow(10, b.len()) + decimal_value(b),
    decreases b.len(),
{
    if b.len() == 0 {
        lemma_pow0(10);
        assert(a + b =~= a);
        assert(decimal_value(a) * pow(10, 0) == decimal_value(a)) by (nonlinear_arith)
            requires
                pow(10, 0) == 1,
        ;
    } else {
        let init = b.drop_last();
        law_digits_count_by_place(a, init);
        assert((a + b).drop_last() =~= a + init);
        lemma_pow_adds(10, init.len(), 1);
        lemma_pow1(10);
        assert(10 * (decimal_value(a) * pow(10, init.len())) == decimal_value(a) * pow(
            10,
            b.len(),
        )) by (nonlinear_arith)
            requires
                pow(10, b.len()) == pow(10, init.len()) * 10,
        ;
    }
}

/// A single digit stands for its distance from zero.
pub proof fn law_digit_stands_for_its_value(c: char)
    requires
        '0' <= c <= '9',
    ensures
        decimal_value(seq![c]) == c as int - 48,
{
    assert(seq![c].drop_last() =~= Seq::<char>::empty());
    assert(decimal_value(seq![c].drop_last()) == 0);
}

/// A number in decimal consists of digits that stand for the number, the first of
/// which is not zero unless it is the only one.
pub proof fn law_decimal_text(n: nat)
    ensures
        decimal_text(n).len() > 0,
        forall|i: int| 0 <= i < decimal_text(n).len() ==> '0' <= #[trigger] decimal_text(n)[i] <= '9',
        decimal_value(decimal_text(n)) == n,
        decimal_text(n).len() > 1 ==> decimal_text(n)[0] != '0',
    decreases n,
{
    lemma_decimal_text(n);
    assert forall|i: int| 0 <= i < decimal_text(n).len() implies '0' <= #[trigger] decimal_text(
        n,
    )[i] <= '9' by {
        assert(is_digit(decimal_text(n)[i]));
    }
    if n >= 10 {
        law_decimal_text(n / 10);
        assert(decimal_text(n)[0] == decimal_text(n / 10)[0]);
        if decimal_text(n / 10).len() == 1 {
            let t = decimal_text(n / 10);
            assert(t =~= seq![t[0]]);
            law_digit_stands_for_its_value(t[0]);
        }
    }
}

/// A text is a `u32` exactly if it is digits, at least one, behind at most one
/// plus sign, and they stand for a number that fits; that number is the `u32`.
pub proof fn law_u32_in(s: Seq<char>, d: Seq<char>, n: u32)
    requires
        s == seq!['+'] + d || (s == d && (d.len() > 0 ==> d[0] != '+')),
    ensures
        u32_in(s) == Some(n) <==> d.len() > 0 && decimal_value(d) == n && forall|i: int|
            0 <= i < d.len() ==> '0' <= #[trigger] d[i] <= '9',
{
    assert(unsigned_part(s) =~= d);
    if all_digits(d) {
        assert forall|i: int| 0 <= i < d.len() implies '0' <= #[trigger] d[i] <= '9' by {
            assert(is_digit(d[i]));
        }
    }
    if forall|i: int| 0 <= i < d.len() ==> '0' <= #[trigger] d[i] <= '9' {
        assert forall|i: int| 0 <= i < d.len() implies is_digit(#[trigger] d[i]) by {
            assert('0' <= d[i] <= '9');
        }
        assert(all_digits(d));
    }
    if d.len() > 0 && all_digits(d) && decimal_value(d) <= u32::MAX {
        assert(u32_in(s) == Some(decimal_value(d) as u32));
    } else {
        assert(u32_in(s) is None);
    }
}

/// Numbers in decimal that look the same are the same.
pub proof fn law_decimal_is_injective(m: nat, n: nat)
    requires
        decimal_text(m) == decimal_text(n),
    ensures
        m == n,
{
    lemma_decimal_text(m);
    lemma_decimal_text(n);
}

/// Splitting goes on behind each separator: what stands in front of one is split
/// on its own, and so is what stands behind it.
pub proof fn law_split_at_separator(
    a: Seq<char>,
    c: char,
    b: Seq<char>,
    sep: spec_fn(char) -> bool,
)
    requires
        sep(c),
    ensures
        split_by(a + seq![c] + b, sep) == split_by(a, sep) + split_by(b, sep),
    decreases a.len(),
{
    let s = a + seq![c] + b;
    let n = first_index(a, sep);
    lemma_first_index(a, sep);
    assert forall|i: int| 0 <= i < n implies !sep(#[trigger] s[i]) by {
        assert(s[i] == a[i]);
    }
    if n < a.len() {
        assert(s[n] == a[n]);
    }
    lemma_first_index_is(s, sep, n);
    assert(s.take(n) =~= a.take(n));
    if n < a.len() {
        let rest = a.skip(n + 1);
        assert(s.skip(n + 1) =~= rest + seq![c] + b);
        law_split_at_separator(rest, c, b, sep);
        assert(seq![a.take(n)] + (split_by(rest, sep) + split_by(b, sep)) =~= split_by(a, sep)
            + split_by(b, sep));
    } else {
        assert(a.take(n) =~= a);
        assert(s.skip(n + 1) =~= b);
        assert(split_by(a, sep) =~= seq![a]);
    }
}

/// The parts of a text, with the separator between each two, are the text; there
/// is at least one, and none holds the separator.
pub proof fn law_split_joins_again(s: Seq<char>, sep: char)
    ensures
        joined_by(split_by(s, is_char(sep)), sep) == s,
        split_by(s, is_char(sep)).len() > 0,
        forall|i: int|
            0 <= i < split_by(s, is_char(sep)).len() ==> !(#[trigger] split_by(
                s,
                is_char(sep),
            )[i]).contains(sep),
    decreases s.len(),
{
    let p = is_char(sep);
    let n = first_index(s, p);
    let parts = split_by(s, p);
    lemma_first_index(s, p);
    if n < s.len() {
        let rest = s.skip(n + 1);
        law_split_joins_again(rest, sep);
        assert(parts.skip(1) =~= split_by(rest, p));
        assert(s =~= s.take(n) + seq![sep] + rest);
        assert forall|i: int| 0 <= i < parts.len() implies !(#[trigger] parts[i]).contains(sep) by {
            if i == 0 {
                if parts[0].contains(sep) {
                    let k = choose|k: int| 0 <= k < parts[0].len() && parts[0][k] == sep;
                    assert(!p(s[k]));
                }
            } else {
                assert(parts[i] == split_by(rest, p)[i - 1]);
            }
        }
    } else {
        assert(parts =~= seq![s]);
        if s.contains(sep) {
            let k = choose|k: int| 0 <= k < s.len() && s[k] == sep;
            assert(!p(s[k]));
        }
    }
}

/// The words on both sides of white space are the words of the whole.
pub proof fn law_words_are_parted_by_white_space(a: Seq<char>, c: char, b: Seq<char>)
    requires
        is_white(c),
    ensures
        words(a + seq![c] + b) == words(a) + words(b),
{
    let p = |x: char| is_white(x);
    let ne = |w: Seq<char>| w.len() > 0;
    law_split_at_separator(a, c, b, p);
    Seq::filter_distributes_over_add(split_by(a, p), split_by(b, p), ne);
}

/// A text without white space is one word, unless it is empty: then it has none.
pub proof fn law_text_without_white_space_is_a_word(s: Seq<char>)
    requires
        forall|i: int| 0 <= i < s.len() ==> !is_white(#[trigger] s[i]),
    ensures
        words(s) == (if s.len() > 0 {
            seq![s]
        } else {
            Seq::<Seq<char>>::empty()
        }),
{
    let p = |x: char| is_white(x);
    let ne = |w: Seq<char>| w.len() > 0;
    lemma_first_index_is(s, p, s.len() as int);
    lemma_filter_first(s, Seq::empty(), ne);
    assert(seq![s] + Seq::<Seq<char>>::empty() =~= seq![s]);
    assert(Seq::<Seq<char>>::empty().filter(ne) =~= Seq::empty()) by {
        reveal(Seq::filter);
    }
}

/// Characters that are trimmed at the end go, and what stands in front of them
/// stays.
pub proof fn law_trim_end(s: Seq<char>, c: char, n: nat)
    requires
        s.len() > 0 ==> s.last() != c,
    ensures
        trim_end_by(s + repeated(c, n), is_char(c)) == s,
    decreases n,
{
    let t = s + repeated(c, n);
    if n == 0 {
        assert(t =~= s);
    } else {
        law_trim_end(s, c, (n - 1) as nat);
        assert(t.drop_last() =~= s + repeated(c, (n - 1) as nat));
        assert(t.last() == c);
    }
}

/// White space around a text goes, and the text stays.
pub proof fn law_trimmed(w: Seq<char>, s: Seq<char>, v: Seq<char>)
    requires
        forall|i: int| 0 <= i < w.len() ==> is_white(#[trigger] w[i]),
        forall|i: int| 0 <= i < v.len() ==> is_white(#[trigger] v[i]),
        s.len() > 0,
        !is_white(s[0]),
        !is_white(s.last()),
    ensures
        trimmed(w + s + v) == s,
    decreases w.len() + v.len(),
{
    let t = w + s + v;
    let p = |c: char| is_white(c);
    if w.len() > 0 {
        assert(t[0] == w[0]);
        assert(t.skip(1) =~= w.skip(1) + s + v);
        law_trimmed(w.skip(1), s, v);
    } else if v.len() > 0 {
        assert(t[0] == s[0]);
        assert(t.last() == v.last());
        assert(t.drop_last() =~= w + s + v.drop_last());
        assert(t.drop_last()[0] == s[0]);
        law_trimmed(w, s, v.drop_last());
    } else {
        assert(t =~= s);
    }
}

/// A text splits once where the separator comes first, and not where there is
/// none.
pub proof fn law_split_once(k: Seq<char>, sep: char, v: Seq<char>)
    requires
        !k.contains(sep),
    ensures
        split_once_at(k + seq![sep] + v, sep) == Some((k, v)),
        split_once_at(k, sep) is None,
{
    let s = k + seq![sep] + v;
    let p = is_char(sep);
    assert forall|i: int| 0 <= i < k.len() implies !p(#[trigger] s[i]) by {
        assert(s[i] == k[i]);
    }
    lemma_first_index_is(s, p, k.len() as int);
    lemma_first_index_is(k, p, k.len() as int);
    assert(s.take(k.len() as int) =~= k);
    assert(s.skip((k.len() + 1) as int) =~= v);
}

/// The texts of strings are the strings' own, one for one.
pub proof fn law_texts(v: Seq<String>)
    ensures
        texts(v).len() == v.len(),
        forall|i: int| 0 <= i < v.len() ==> #[trigger] texts(v)[i] == v[i]@,
{
}

/// Of a text that is all white space nothing is left.
pub proof fn law_white_space_is_trimmed_away(w: Seq<char>)
    requires
        forall|i: int| 0 <= i < w.len() ==> is_white(#[trigger] w[i]),
    ensures
        trimmed(w) == Seq::<char>::empty(),
    decreases w.len(),
{
    if w.len() > 0 {
        assert(is_white(w[0]));
        law_white_space_is_trimmed_away(w.skip(1));
    } else {
        assert(w =~= Seq::<char>::empty());
    }
}

} // verus!
