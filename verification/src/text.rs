//! Text as sequences of characters: the small vocabulary that rules, labels and
//! messages are stated in, with the executable operations beside it.
use vstd::prelude::*;

verus! {

/// The character sequences of a list of strings.
pub open spec fn texts(v: Seq<String>) -> Seq<Seq<char>> {
    Seq::new(v.len(), |i: int| v[i]@)
}

/// The characters of a string that may be absent.
pub open spec fn maybe_text(o: Option<String>) -> Option<Seq<char>> {
    match o {
        Some(s) => Some(s@),
        None => None,
    }
}

/// Whether two strings that may be absent are both absent or the same.
pub fn same_maybe(a: &Option<String>, b: &Option<String>) -> (r: bool)
    ensures
        r == (maybe_text(*a) == maybe_text(*b)),
{
    match (a, b) {
        (Some(x), Some(y)) => *x == *y,
        (None, None) => true,
        _ => false,
    }
}

/// Another string that may be absent, of the same characters.
pub fn copy_maybe(a: &Option<String>) -> (r: Option<String>)
    ensures
        maybe_text(r) == maybe_text(*a),
{
    match a {
        Some(x) => Some(x.clone()),
        None => None,
    }
}

/// Whether two lists of strings are the same.
pub fn same_list(a: &[String], b: &[String]) -> (r: bool)
    ensures
        r == (texts(a@) == texts(b@)),
{
    if a.len() != b.len() {
        assert(texts(a@).len() != texts(b@).len());
        return false;
    }
    let mut i: usize = 0;
    while i < a.len()
        invariant
            i <= a.len(),
            a@.len() == b@.len(),
            forall|k: int| 0 <= k < i ==> texts(a@)[k] == texts(b@)[k],
        decreases a.len() - i,
    {
        if a[i] != b[i] {
            assert(texts(a@)[i as int] != texts(b@)[i as int]);
            return false;
        }
        i += 1;
    }
    assert(texts(a@) =~= texts(b@));
    true
}

/// Another list of the same strings.
pub fn copy_list(a: &[String]) -> (r: Vec<String>)
    ensures
        texts(r@) == texts(a@),
{
    let mut out: Vec<String> = Vec::new();
    let mut i: usize = 0;
    while i < a.len()
        invariant
            i <= a.len(),
            out.len() == i,
            forall|k: int| 0 <= k < i ==> (#[trigger] out@[k])@ == texts(a@)[k],
        decreases a.len() - i,
    {
        out.push(a[i].clone());
        i += 1;
    }
    assert(texts(out@) =~= texts(a@));
    out
}

/// Whether `s` is one of the strings of a list.
pub fn listed(a: &[String], s: &str) -> (r: bool)
    ensures
        r == texts(a@).contains(s@),
{
    let mut i: usize = 0;
    while i < a.len()
        invariant
            i <= a.len(),
            forall|k: int| 0 <= k < i ==> texts(a@)[k] != s@,
        decreases a.len() - i,
    {
        if same(a[i].as_str(), s) {
            assert(texts(a@)[i as int] == s@);
            return true;
        }
        i += 1;
    }
    false
}

/// `needle` stands in `hay` at position `at`.
pub open spec fn occurs_at(hay: Seq<char>, needle: Seq<char>, at: int) -> bool {
    0 <= at && at + needle.len() <= hay.len() && hay.subrange(at, at + needle.len()) == needle
}

/// `needle` stands somewhere in `hay`.
pub open spec fn occurs_in(hay: Seq<char>, needle: Seq<char>) -> bool {
    exists|at: int| occurs_at(hay, needle, at)
}

/// The characters of a string, in order.
pub fn chars_of(s: &str) -> (r: Vec<char>)
    ensures
        r@ == s@,
{
    let mut out: Vec<char> = Vec::new();
    for c in it: s.chars()
        invariant
            out@ == s@.take(it.index()),
            it.seq() == s@,
    {
        out.push(c);
    }
    out
}

/// Whether two strings hold the same characters.
pub fn same(a: &str, b: &str) -> (r: bool)
    ensures
        r == (a@ == b@),
{
    let x = chars_of(a);
    let y = chars_of(b);
    same_chars(&x, &y)
}

/// Whether two character lists are equal.
pub fn same_chars(a: &Vec<char>, b: &Vec<char>) -> (r: bool)
    ensures
        r == (a@ == b@),
{
    if a.len() != b.len() {
        return false;
    }
    let mut i: usize = 0;
    while i < a.len()
        invariant
            i <= a.len(),
            a.len() == b.len(),
            a@.take(i as int) == b@.take(i as int),
        decreases a.len() - i,
    {
        if a[i] != b[i] {
            assert(a@[i as int] != b@[i as int]);
            return false;
        }
        assert(a@.take(i + 1) =~= a@.take(i as int).push(a@[i as int]));
        assert(b@.take(i + 1) =~= b@.take(i as int).push(b@[i as int]));
        i += 1;
    }
    assert(a@.take(i as int) =~= a@);
    assert(b@.take(i as int) =~= b@);
    true
}

/// Whether `needle` stands in `hay` at `at`.
pub fn found_at(hay: &Vec<char>, needle: &Vec<char>, at: usize) -> (r: bool)
    ensures
        r == occurs_at(hay@, needle@, at as int),
{
    if at > hay.len() || needle.len() > hay.len() - at {
        return false;
    }
    let mut i: usize = 0;
    while i < needle.len()
        invariant
            i <= needle.len(),
            at + needle.len() <= hay.len(),
            forall|k: int| 0 <= k < i ==> hay@[at + k] == needle@[k],
        decreases needle.len() - i,
    {
        if hay[at + i] != needle[i] {
            assert(hay@.subrange(at as int, at + needle@.len())[i as int] != needle@[i as int]);
            return false;
        }
        i += 1;
    }
    assert(hay@.subrange(at as int, at + needle@.len()) =~= needle@);
    true
}

/// Whether `needle` stands anywhere in `hay`.
pub fn found_in(hay: &Vec<char>, needle: &Vec<char>) -> (r: bool)
    ensures
        r == occurs_in(hay@, needle@),
{
    let mut at: usize = 0;
    while at <= hay.len()
        invariant
            at <= hay.len() + 1,
            forall|k: int| 0 <= k < at ==> !occurs_at(hay@, needle@, k),
        decreases hay.len() + 1 - at,
    {
        if found_at(hay, needle, at) {
            return true;
        }
        if at == hay.len() {
            assert forall|k: int| !occurs_at(hay@, needle@, k) by {}
            return false;
        }
        at += 1;
    }
    false
}

/// Whether `s` starts with `prefix`.
pub fn starts_with(s: &str, prefix: &str) -> (r: bool)
    ensures
        r == prefix@.is_prefix_of(s@),
{
    let a = chars_of(s);
    let b = chars_of(prefix);
    found_at(&a, &b, 0)
}

/// Whether `s` contains `needle`.
pub fn contains(s: &str, needle: &str) -> (r: bool)
    ensures
        r == occurs_in(s@, needle@),
{
    let a = chars_of(s);
    let b = chars_of(needle);
    found_in(&a, &b)
}

/// The decimal digit for `d`.
pub open spec fn digit(d: int) -> char {
    ('0' as int + d) as char
}

/// The decimal numeral of `n`, without leading zeros.
pub open spec fn decimal(n: nat) -> Seq<char>
    decreases n,
{
    if n < 10 {
        seq![digit(n as int)]
    } else {
        decimal(n / 10).push(digit((n % 10) as int))
    }
}

/// The decimal numeral of `n`, with a leading minus sign below zero.
pub open spec fn signed_decimal(n: int) -> Seq<char> {
    if n < 0 {
        seq!['-'] + decimal((-n) as nat)
    } else {
        decimal(n as nat)
    }
}

/// Ten to the power of `k`.
pub open spec fn pow10(k: nat) -> nat
    decreases k,
{
    if k == 0 {
        1
    } else {
        10 * pow10((k - 1) as nat)
    }
}

proof fn decimal_is_short(n: nat, k: nat)
    requires
        k > 0,
        n < pow10(k),
    ensures
        decimal(n).len() <= k,
    decreases k,
{
    if n >= 10 {
        if k == 1 {
            assert(pow10(1) == 10 * pow10(0));
        }
        decimal_is_short(n / 10, (k - 1) as nat);
    }
}

/// A 64-bit number has at most twenty decimal digits.
pub proof fn decimal_of_u64_is_short(n: nat)
    requires
        n <= u64::MAX,
    ensures
        decimal(n).len() <= 20,
{
    reveal_with_fuel(pow10, 21);
    decimal_is_short(n, 20);
}

fn digit_text(d: u128) -> (r: &'static str)
    requires
        d < 10,
    ensures
        r@ == seq![digit(d as int)],
{
    proof {
        reveal_strlit("0");
        reveal_strlit("1");
        reveal_strlit("2");
        reveal_strlit("3");
        reveal_strlit("4");
        reveal_strlit("5");
        reveal_strlit("6");
        reveal_strlit("7");
        reveal_strlit("8");
        reveal_strlit("9");
    }
    match d {
        0 => "0",
        1 => "1",
        2 => "2",
        3 => "3",
        4 => "4",
        5 => "5",
        6 => "6",
        7 => "7",
        8 => "8",
        _ => "9",
    }
}

/// Append the decimal numeral of `n` to `s`.
pub fn push_decimal(s: &mut String, n: u128)
    ensures
        final(s)@ == old(s)@ + decimal(n as nat),
    decreases n,
{
    if n >= 10 {
        push_decimal(s, n / 10);
    }
    s.append(digit_text(n % 10));
    assert(s@ =~= old(s)@ + decimal(n as nat));
}

/// The decimal numeral of `n`.
pub fn decimal_text(n: u128) -> (r: String)
    ensures
        r@ == decimal(n as nat),
{
    let mut s = String::new();
    push_decimal(&mut s, n);
    assert(s@ =~= decimal(n as nat));
    s
}

/// The decimal numeral of a signed number.
pub fn signed_decimal_text(n: i32) -> (r: String)
    ensures
        r@ == signed_decimal(n as int),
{
    let mut s = String::new();
    if n < 0 {
        proof {
            reveal_strlit("-");
        }
        s.append("-");
        let wide: i64 = -(n as i64);
        push_decimal(&mut s, wide as u128);
    } else {
        push_decimal(&mut s, n as u128);
    }
    assert(s@ =~= signed_decimal(n as int));
    s
}

/// `parts` with `sep` between each two.
pub open spec fn joined(parts: Seq<Seq<char>>, sep: Seq<char>) -> Seq<char>
    decreases parts.len(),
{
    if parts.len() == 0 {
        Seq::empty()
    } else if parts.len() == 1 {
        parts[0]
    } else {
        joined(parts.drop_last(), sep) + sep + parts.last()
    }
}

/// Join `parts` with `sep` between each two.
pub fn join(parts: &[String], sep: &str) -> (r: String)
    ensures
        r@ == joined(texts(parts@), sep@),
{
    let mut out = String::new();
    let mut i: usize = 0;
    while i < parts.len()
        invariant
            i <= parts.len(),
            out@ == joined(texts(parts@).take(i as int), sep@),
        decreases parts.len() - i,
    {
        let ghost t = texts(parts@);
        assert(t.take(i + 1).drop_last() =~= t.take(i as int));
        if i > 0 {
            out.append(sep);
        }
        out.append(parts[i].as_str());
        assert(out@ =~= joined(t.take(i + 1), sep@));
        i += 1;
    }
    assert(texts(parts@).take(i as int) =~= texts(parts@));
    out
}

/// The characters that count as white space.
pub open spec fn white(c: char) -> bool {
    let n = c as int;
    ||| 0x9 <= n <= 0xd
    ||| n == 0x20
    ||| n == 0x85
    ||| n == 0xa0
    ||| n == 0x1680
    ||| 0x2000 <= n <= 0x200a
    ||| n == 0x2028
    ||| n == 0x2029
    ||| n == 0x202f
    ||| n == 0x205f
    ||| n == 0x3000
}

/// Whether `c` is white space.
pub fn is_white(c: char) -> (r: bool)
    ensures
        r == white(c),
{
    let n: u32 = c as u32;
    (0x9 <= n && n <= 0xd) || n == 0x20 || n == 0x85 || n == 0xa0 || n == 0x1680 || (0x2000 <= n
        && n <= 0x200a) || n == 0x2028 || n == 0x2029 || n == 0x202f || n == 0x205f || n == 0x3000
}

/// `s` without the white space at its end.
pub open spec fn trimmed_end(s: Seq<char>) -> Seq<char>
    decreases s.len(),
{
    if s.len() > 0 && white(s.last()) {
        trimmed_end(s.drop_last())
    } else {
        s
    }
}

/// `s` without the white space at its start.
pub open spec fn trimmed_start(s: Seq<char>) -> Seq<char>
    decreases s.len(),
{
    if s.len() > 0 && white(s[0]) {
        trimmed_start(s.skip(1))
    } else {
        s
    }
}

/// How many characters of `s` come before its first white space.
pub open spec fn word_len(s: Seq<char>) -> nat
    decreases s.len(),
{
    if s.len() == 0 || white(s[0]) {
        0
    } else {
        1 + word_len(s.skip(1))
    }
}

pub proof fn lemma_word_len(s: Seq<char>)
    ensures
        word_len(s) <= s.len(),
    decreases s.len(),
{
    if s.len() > 0 && !white(s[0]) {
        lemma_word_len(s.skip(1));
    }
}

pub proof fn lemma_trimmed_start_len(s: Seq<char>)
    ensures
        trimmed_start(s).len() <= s.len(),
        trimmed_start(s).len() > 0 ==> word_len(trimmed_start(s)) > 0,
    decreases s.len(),
{
    if s.len() > 0 && white(s[0]) {
        lemma_trimmed_start_len(s.skip(1));
    }
}

/// The words of `s`: its longest stretches without white space, in order.
pub open spec fn words(s: Seq<char>) -> Seq<Seq<char>>
    decreases s.len(),
{
    let t = trimmed_start(s);
    if t.len() == 0 || word_len(t) > t.len() || word_len(t) == 0 || t.len() > s.len() {
        Seq::empty()
    } else {
        seq![t.take(word_len(t) as int)] + words(t.skip(word_len(t) as int))
    }
}

/// How much of `v` is left once the white space at its end is gone.
pub fn end_trimmed_len(v: &Vec<char>) -> (n: usize)
    ensures
        n <= v.len(),
        v@.take(n as int) == trimmed_end(v@),
{
    let mut n: usize = v.len();
    assert(v@.take(n as int) =~= v@);
    while n > 0 && is_white(v[n - 1])
        invariant
            n <= v.len(),
            trimmed_end(v@.take(n as int)) == trimmed_end(v@),
        decreases n,
    {
        assert(v@.take(n as int).drop_last() =~= v@.take(n - 1));
        n -= 1;
    }
    n
}

/// The index at which the white space at the start of `v[from..]` ends.
pub fn start_trimmed_from(v: &Vec<char>, from: usize) -> (n: usize)
    requires
        from <= v.len(),
    ensures
        from <= n <= v.len(),
        v@.skip(n as int) == trimmed_start(v@.skip(from as int)),
{
    let mut n: usize = from;
    while n < v.len() && is_white(v[n])
        invariant
            from <= n <= v.len(),
            trimmed_start(v@.skip(n as int)) == trimmed_start(v@.skip(from as int)),
        decreases v.len() - n,
    {
        assert(v@.skip(n as int).skip(1) =~= v@.skip(n + 1));
        n += 1;
    }
    n
}

/// The index just past the word that starts at `from`.
pub fn word_end(v: &Vec<char>, from: usize) -> (n: usize)
    requires
        from <= v.len(),
    ensures
        from <= n <= v.len(),
        n - from == word_len(v@.skip(from as int)),
{
    let mut n: usize = from;
    while n < v.len() && !is_white(v[n])
        invariant
            from <= n <= v.len(),
            n - from + word_len(v@.skip(n as int)) == word_len(v@.skip(from as int)),
        decreases v.len() - n,
    {
        assert(v@.skip(n as int).skip(1) =~= v@.skip(n + 1));
        n += 1;
    }
    n
}

/// `s` without white space at either end.
pub open spec fn trimmed(s: Seq<char>) -> Seq<char> {
    trimmed_end(trimmed_start(s))
}

/// `s` without white space at either end.
pub fn trim(s: &str) -> (r: String)
    ensures
        r@ == trimmed(s@),
{
    let v = chars_of(s);
    let from: usize = start_trimmed_from(&v, 0);
    assert(v@.skip(0) =~= v@);
    let rest = s.substring_char(from, v.len());
    assert(rest@ =~= v@.skip(from as int));
    let w = chars_of(rest);
    let n: usize = end_trimmed_len(&w);
    let kept = rest.substring_char(0, n);
    assert(kept@ =~= w@.take(n as int));
    kept.to_owned()
}

/// The words of `s` from its character `from` on.
pub fn words_from(s: &str, from: usize) -> (r: Vec<String>)
    requires
        from <= s@.len(),
    ensures
        texts(r@) == words(s@.skip(from as int)),
{
    let v = chars_of(s);
    let mut out: Vec<String> = Vec::new();
    let mut at: usize = from;
    let ghost whole = words(s@.skip(from as int));
    assert(texts(out@) + words(v@.skip(at as int)) =~= whole);
    loop
        invariant
            v@ == s@,
            at <= v.len(),
            texts(out@) + words(v@.skip(at as int)) == whole,
        ensures
            texts(out@) == whole,
        decreases v.len() - at,
    {
        let start: usize = start_trimmed_from(&v, at);
        let ghost t = trimmed_start(v@.skip(at as int));
        proof {
            lemma_word_len(t);
            lemma_trimmed_start_len(v@.skip(at as int));
        }
        if start == v.len() {
            assert(words(v@.skip(at as int)) =~= Seq::empty());
            assert(texts(out@) =~= whole);
            break;
        }
        let end: usize = word_end(&v, start);
        let word = s.substring_char(start, end);
        assert(word@ =~= t.take(word_len(t) as int));
        let ghost before = texts(out@);
        out.push(word.to_owned());
        assert(texts(out@) =~= before.push(word@));
        assert(t.skip(word_len(t) as int) =~= v@.skip(end as int));
        assert(texts(out@) + words(v@.skip(end as int)) =~= before + (seq![word@] + words(
            v@.skip(end as int),
        )));
        at = end;
    }
    out
}

fn code_of(c: char) -> (r: u32)
    ensures
        r as int == c as int,
{
    c as u32
}

/// Whether `c` is one of the ten decimal digits.
pub open spec fn is_digit(c: char) -> bool {
    '0' as int <= c as int <= '9' as int
}

/// The number that a run of decimal digits stands for.
pub open spec fn digits_value(s: Seq<char>) -> nat
    decreases s.len(),
{
    if s.len() == 0 {
        0
    } else {
        digits_value(s.drop_last()) * 10 + (s.last() as int - '0' as int) as nat
    }
}

/// A non-empty run of decimal digits.
pub open spec fn all_digits(s: Seq<char>) -> bool {
    s.len() > 0 && forall|i: int| 0 <= i < s.len() ==> is_digit(#[trigger] s[i])
}

pub proof fn lemma_digits_value_grows(s: Seq<char>, n: int)
    requires
        0 <= n <= s.len(),
    ensures
        digits_value(s.take(n)) <= digits_value(s),
    decreases s.len() - n,
{
    if n < s.len() {
        lemma_digits_value_grows(s, n + 1);
        assert(s.take(n + 1).drop_last() =~= s.take(n));
    } else {
        assert(s.take(n) =~= s);
    }
}

/// The value of the digits `v[from..]`, if they are digits and the value fits.
pub fn digits_from(v: &Vec<char>, from: usize) -> (r: Option<u64>)
    requires
        from <= v.len(),
    ensures
        r matches Some(n) ==> all_digits(v@.skip(from as int)) && n == digits_value(
            v@.skip(from as int),
        ),
        r is None ==> !all_digits(v@.skip(from as int)) || digits_value(v@.skip(from as int))
            > u64::MAX,
{
    let ghost d = v@.skip(from as int);
    if from == v.len() {
        return None;
    }
    let mut n: u64 = 0;
    let mut i: usize = from;
    assert(d.take(0) =~= Seq::empty());
    while i < v.len()
        invariant
            from <= i <= v.len(),
            d == v@.skip(from as int),
            n == digits_value(d.take(i - from)),
            forall|k: int| 0 <= k < i - from ==> is_digit(#[trigger] d[k]),
        decreases v.len() - i,
    {
        let c: u32 = code_of(v[i]);
        assert(d[i - from] == v@[i as int]);
        if c < '0' as u32 || c > '9' as u32 {
            assert(!is_digit(d[i - from]));
            return None;
        }
        assert(d.take(i - from + 1).drop_last() =~= d.take(i - from));
        proof {
            lemma_digits_value_grows(d, i - from + 1);
        }
        let add: u64 = (c - '0' as u32) as u64;
        assert(d.take(i - from + 1).last() == v@[i as int]);
        assert(digits_value(d.take(i - from + 1)) == digits_value(d.take(i - from)) * 10 + add);
        if n > (u64::MAX - add) / 10 {
            assert(digits_value(d.take(i - from + 1)) > u64::MAX);
            return None;
        }
        n = n * 10 + add;
        i += 1;
    }
    assert(d.take(i - from) =~= d);
    Some(n)
}

/// The number written in `s`: decimal digits, with an optional leading plus sign.
pub open spec fn read_u64(s: Seq<char>) -> Option<u64> {
    let d = if s.len() > 0 && s[0] == '+' {
        s.skip(1)
    } else {
        s
    };
    if all_digits(d) && digits_value(d) <= u64::MAX {
        Some(digits_value(d) as u64)
    } else {
        None
    }
}

/// The number written in `s`: decimal digits, with an optional leading sign.
pub open spec fn read_i32(s: Seq<char>) -> Option<i32> {
    let signed = s.len() > 0 && (s[0] == '+' || s[0] == '-');
    let d = if signed {
        s.skip(1)
    } else {
        s
    };
    let value: int = if signed && s[0] == '-' {
        -digits_value(d)
    } else {
        digits_value(d) as int
    };
    if all_digits(d) && i32::MIN <= value <= i32::MAX {
        Some(value as i32)
    } else {
        None
    }
}

/// Read a decimal number, or `None` where `s` does not write one that fits.
pub fn parse_u64(s: &str) -> (r: Option<u64>)
    ensures
        r == read_u64(s@),
{
    let v = chars_of(s);
    let from: usize = if v.len() > 0 && v[0] == '+' {
        1
    } else {
        0
    };
    assert(v@.skip(0) =~= v@);
    digits_from(&v, from)
}

/// Read a signed decimal number, or `None` where `s` does not write one that fits.
pub fn parse_i32(s: &str) -> (r: Option<i32>)
    ensures
        r == read_i32(s@),
{
    let v = chars_of(s);
    let minus = v.len() > 0 && v[0] == '-';
    let from: usize = if v.len() > 0 && (v[0] == '+' || v[0] == '-') {
        1
    } else {
        0
    };
    assert(v@.skip(0) =~= v@);
    match digits_from(&v, from) {
        None => None,
        Some(n) => {
            if minus {
                if n > 0x8000_0000 {
                    None
                } else {
                    Some((-(n as i64)) as i32)
                }
            } else if n > 0x7fff_ffff {
                None
            } else {
                Some(n as i32)
            }
        },
    }
}

/// `s` cut to at most `max` characters, the last of them the elision mark.
pub open spec fn elided(s: Seq<char>, max: nat) -> Seq<char> {
    if s.len() <= max {
        s
    } else {
        trimmed_end(
            s.take(
                if max > 0 {
                    max - 1
                } else {
                    0
                },
            ),
        ).push('\u{2026}')
    }
}

/// `s` cut to at most `max` characters, the last of them the elision mark.
/// Counted in characters, so that a multi-byte text is cut where a reader would
/// cut it.
pub fn elide(s: &str, max: usize) -> (r: String)
    ensures
        r@ == elided(s@, max as nat),
{
    let v = chars_of(s);
    if v.len() <= max {
        return s.to_owned();
    }
    let keep: usize = max.saturating_sub(1);
    let head = s.substring_char(0, keep);
    let w = chars_of(head);
    let n: usize = end_trimmed_len(&w);
    let kept = head.substring_char(0, n);
    assert(head@ =~= s@.take(keep as int));
    assert(kept@ =~= w@.take(n as int));
    let mut out = kept.to_owned();
    proof {
        reveal_strlit("\u{2026}");
    }
    out.append("\u{2026}");
    assert(out@ =~= elided(s@, max as nat));
    out
}

/// Trimming never lengthens a text.
pub proof fn trimmed_end_is_shorter(s: Seq<char>)
    ensures
        trimmed_end(s).len() <= s.len(),
        trimmed_end(s).is_prefix_of(s),
    decreases s.len(),
{
    if s.len() > 0 && white(s.last()) {
        trimmed_end_is_shorter(s.drop_last());
        assert(trimmed_end(s) =~= s.take(trimmed_end(s).len() as int)) by {
            let t = trimmed_end(s.drop_last());
            assert(t =~= s.drop_last().take(t.len() as int));
        }
    } else {
        assert(s =~= s.take(s.len() as int));
    }
}

/// An elided text keeps its bound.
pub proof fn elided_is_bounded(s: Seq<char>, max: nat)
    requires
        max > 0,
    ensures
        elided(s, max).len() <= max,
{
    if s.len() > max {
        trimmed_end_is_shorter(s.take(max - 1));
    }
}

/// `a` stands before `b` in the order of their characters.
pub open spec fn before(a: Seq<char>, b: Seq<char>) -> bool
    decreases a.len(),
{
    if b.len() == 0 {
        false
    } else if a.len() == 0 {
        true
    } else if a[0] != b[0] {
        (a[0] as int) < b[0] as int
    } else {
        before(a.skip(1), b.skip(1))
    }
}

/// Of two different texts, exactly one stands before the other.
pub proof fn before_is_total(a: Seq<char>, b: Seq<char>)
    ensures
        a == b ==> !before(a, b),
        a != b ==> before(a, b) != before(b, a),
    decreases a.len(),
{
    if a.len() > 0 && b.len() > 0 {
        if a[0] == b[0] {
            before_is_total(a.skip(1), b.skip(1));
            if a.skip(1) == b.skip(1) {
                assert(a =~= seq![a[0]] + a.skip(1));
                assert(b =~= seq![b[0]] + b.skip(1));
            }
        }
    } else if a.len() == 0 && b.len() == 0 {
        assert(a =~= b);
    }
}

/// What stands before something that stands before `c` stands before `c`.
pub proof fn before_is_transitive(a: Seq<char>, b: Seq<char>, c: Seq<char>)
    requires
        before(a, b),
        before(b, c),
    ensures
        before(a, c),
    decreases a.len(),
{
    if a.len() > 0 && b.len() > 0 && c.len() > 0 && a[0] == b[0] && b[0] == c[0] {
        before_is_transitive(a.skip(1), b.skip(1), c.skip(1));
    }
}

/// Whether `a` stands before `b` in the order of their characters.
pub fn is_before(a: &str, b: &str) -> (r: bool)
    ensures
        r == before(a@, b@),
{
    let x = chars_of(a);
    let y = chars_of(b);
    let mut i: usize = 0;
    assert(x@.skip(0) =~= x@);
    assert(y@.skip(0) =~= y@);
    loop
        invariant
            i <= x.len(),
            i <= y.len(),
            before(x@.skip(i as int), y@.skip(i as int)) == before(a@, b@),
        decreases x.len() - i,
    {
        if i == y.len() {
            return false;
        }
        if i == x.len() {
            return true;
        }
        assert(x@.skip(i as int)[0] == x@[i as int]);
        assert(y@.skip(i as int)[0] == y@[i as int]);
        if x[i] != y[i] {
            return x[i] < y[i];
        }
        assert(x@.skip(i as int).skip(1) =~= x@.skip(i + 1));
        assert(y@.skip(i as int).skip(1) =~= y@.skip(i + 1));
        i += 1;
    }
}

/// A numeral reads back as its number, has digits only, and starts with no zero but
/// where it is zero.
pub proof fn a_numeral_reads_back(n: nat)
    ensures
        all_digits(decimal(n)),
        digits_value(decimal(n)) == n,
        n > 0 ==> decimal(n)[0] != '0',
        n <= u64::MAX ==> read_u64(decimal(n)) == Some(n as u64),
    decreases n,
{
    if n >= 10 {
        a_numeral_reads_back(n / 10);
        let rest = decimal(n / 10);
        assert(decimal(n).drop_last() =~= rest);
        assert forall|i: int| 0 <= i < decimal(n).len() implies is_digit(
            #[trigger] decimal(n)[i],
        ) by {
            if i < rest.len() {
                assert(is_digit(rest[i]));
            }
        }
        assert(decimal(n)[0] == rest[0]);
    } else {
        assert(decimal(n).drop_last() =~= Seq::empty());
        assert(digits_value(decimal(n).drop_last()) == 0);
    }
    assert(decimal(n)[0] != '+');
}

/// Joined texts stand one after the other with the separator between each two, and
/// nothing else: the length is theirs and the separators', and each stands at its
/// place behind those before it.
pub proof fn joined_parts_stand_in_order(parts: Seq<Seq<char>>, sep: Seq<char>)
    requires
        parts.len() > 0,
    ensures
        parts.last().len() <= joined(parts, sep).len(),
        joined(parts, sep).skip(joined(parts, sep).len() - parts.last().len()) == parts.last(),
        parts.len() == 1 ==> joined(parts, sep) == parts[0],
        parts.len() > 1 ==> joined(parts, sep) == joined(parts.drop_last(), sep) + (sep
            + parts.last()),
{
    let all = joined(parts, sep);
    assert(all.skip(all.len() - parts.last().len()) =~= parts.last());
    if parts.len() > 1 {
        assert(all =~= joined(parts.drop_last(), sep) + (sep + parts.last()));
    }
}

/// Trimming takes white space from the ends and nothing else: what is left stands in
/// the text with only white space on either side, and neither starts nor ends with
/// any.
pub proof fn trimming_takes_only_white_space(s: Seq<char>) -> (cut: (int, int))
    ensures
        0 <= cut.0 <= cut.1 <= s.len(),
        trimmed(s) == s.subrange(cut.0, cut.1),
        forall|i: int| 0 <= i < cut.0 ==> white(#[trigger] s[i]),
        forall|i: int| cut.1 <= i < s.len() ==> white(#[trigger] s[i]),
        cut.0 < cut.1 ==> !white(s[cut.0]) && !white(s[cut.1 - 1]),
{
    let from = start_is_cut(s);
    let t = trimmed_start(s);
    let keep = end_is_cut(t);
    assert(s.subrange(from, from + keep) =~= t.take(keep));
    assert forall|i: int| from + keep <= i < s.len() implies white(#[trigger] s[i]) by {
        assert(t[i - from] == s[i]);
    }
    (from, from + keep)
}

proof fn start_is_cut(s: Seq<char>) -> (from: int)
    ensures
        0 <= from <= s.len(),
        trimmed_start(s) == s.skip(from),
        forall|i: int| 0 <= i < from ==> white(#[trigger] s[i]),
        from < s.len() ==> !white(s[from]),
    decreases s.len(),
{
    if s.len() > 0 && white(s[0]) {
        let rest = start_is_cut(s.skip(1));
        assert(s.skip(1).skip(rest) =~= s.skip(rest + 1));
        assert forall|i: int| 0 <= i < rest + 1 implies white(#[trigger] s[i]) by {
            if i > 0 {
                assert(s.skip(1)[i - 1] == s[i]);
            }
        }
        rest + 1
    } else {
        assert(s.skip(0) =~= s);
        0
    }
}

proof fn end_is_cut(s: Seq<char>) -> (keep: int)
    ensures
        0 <= keep <= s.len(),
        trimmed_end(s) == s.take(keep),
        forall|i: int| keep <= i < s.len() ==> white(#[trigger] s[i]),
        keep > 0 ==> !white(s[keep - 1]),
    decreases s.len(),
{
    if s.len() > 0 && white(s.last()) {
        let keep = end_is_cut(s.drop_last());
        assert(s.drop_last().take(keep) =~= s.take(keep));
        assert forall|i: int| keep <= i < s.len() implies white(#[trigger] s[i]) by {
            if i < s.len() - 1 {
                assert(s.drop_last()[i] == s[i]);
            }
        }
        keep
    } else {
        assert(s.take(s.len() as int) =~= s);
        s.len() as int
    }
}

/// A text that is not too long is shown whole; one that is ends in the elision mark,
/// and all before the mark is its start, with nothing left out but white space.
pub proof fn a_cut_text_says_so(s: Seq<char>, max: nat)
    requires
        max > 0,
    ensures
        s.len() <= max ==> elided(s, max) == s,
        s.len() > max ==> elided(s, max).len() > 0 && elided(s, max).last() == '\u{2026}'
            && elided(s, max).drop_last().is_prefix_of(s),
        s.len() > max ==> forall|i: int|
            elided(s, max).len() - 1 <= i < max - 1 ==> white(#[trigger] s[i]),
{
    if s.len() > max {
        let head = s.take(max - 1);
        let keep = end_is_cut(head);
        assert(elided(s, max).drop_last() =~= s.take(keep));
        assert forall|i: int| keep <= i < max - 1 implies white(#[trigger] s[i]) by {
            assert(head[i] == s[i]);
        }
    }
}

/// Of two texts the one stands before the other that is its start, or that has the
/// smaller character where they first differ.
pub proof fn order_is_by_the_first_difference(a: Seq<char>, b: Seq<char>, k: int)
    requires
        0 <= k <= a.len(),
        k <= b.len(),
        a.take(k) == b.take(k),
        k < a.len() && k < b.len() ==> a[k] != b[k],
    ensures
        before(a, b) <==> k < b.len() && (k == a.len() || (a[k] as int) < b[k] as int),
    decreases k,
{
    if k > 0 {
        assert(a[0] == a.take(k)[0] && b[0] == b.take(k)[0]);
        assert(a.skip(1).take(k - 1) =~= a.take(k).skip(1));
        assert(b.skip(1).take(k - 1) =~= b.take(k).skip(1));
        order_is_by_the_first_difference(a.skip(1), b.skip(1), k - 1);
    }
}

/// A text stands in what ends with it.
pub broadcast proof fn stands_at_the_end(s: Seq<char>, t: Seq<char>)
    ensures
        #[trigger] occurs_in(s + t, t),
{
    assert((s + t).subrange(s.len() as int, (s.len() + t.len()) as int) =~= t);
    assert(occurs_at(s + t, t, s.len() as int));
}

/// What stands in a text stands in all that the text starts.
pub broadcast proof fn stands_further_on(s: Seq<char>, t: Seq<char>, x: Seq<char>)
    requires
        occurs_in(s, x),
    ensures
        #[trigger] occurs_in(s + t, x),
{
    let at = choose|at: int| occurs_at(s, x, at);
    assert((s + t).subrange(at, at + x.len()) =~= s.subrange(at, at + x.len()));
    assert(occurs_at(s + t, x, at));
}

/// What a text is put together from stands in it.
pub broadcast group parts_stand_in {
    stands_at_the_end,
    stands_further_on,
}

/// A signed numeral reads back as its number.
pub proof fn a_signed_numeral_reads_back(n: i32)
    ensures
        read_i32(signed_decimal(n as int)) == Some(n),
        signed_decimal(n as int).len() > 0,
        forall|i: int|
            0 <= i < signed_decimal(n as int).len() ==> !white(
                #[trigger] signed_decimal(n as int)[i],
            ),
        trimmed(signed_decimal(n as int)) == signed_decimal(n as int),
{
    let s = signed_decimal(n as int);
    if n < 0 {
        let d = decimal(-n as nat);
        a_numeral_reads_back(-n as nat);
        assert(s.skip(1) =~= d);
        assert forall|i: int| 0 <= i < s.len() implies !white(#[trigger] s[i]) by {
            if i > 0 {
                assert(is_digit(d[i - 1]));
            }
        }
    } else {
        a_numeral_reads_back(n as nat);
        assert(is_digit(s[0]));
        assert forall|i: int| 0 <= i < s.len() implies !white(#[trigger] s[i]) by {
            assert(is_digit(s[i]));
        }
    }
    assert(!white(s[0]));
    assert(!white(s.last()));
}

/// Words that are written with a space between each two read back, in order.
pub proof fn words_read_back(parts: Seq<Seq<char>>)
    requires
        forall|i: int, k: int|
            0 <= i < parts.len() && 0 <= k < parts[i].len() ==> !white(#[trigger] parts[i][k]),
        forall|i: int| 0 <= i < parts.len() ==> (#[trigger] parts[i]).len() > 0,
    ensures
        words(joined(parts, seq![' '])) == parts,
    decreases parts.len(),
{
    if parts.len() == 0 {
        assert(words(Seq::<char>::empty()) =~= Seq::<Seq<char>>::empty());
        assert(parts =~= Seq::empty());
    } else {
        let w = parts[0];
        let rest = parts.skip(1);
        assert forall|i: int, k: int| 0 <= i < rest.len() && 0 <= k < rest[i].len() implies !white(
            #[trigger] rest[i][k],
        ) by {
            assert(!white(parts[i + 1][k]));
        }
        assert forall|i: int| 0 <= i < rest.len() implies (#[trigger] rest[i]).len() > 0 by {
            assert(parts[i + 1].len() > 0);
        }
        words_read_back(rest);
        joined_from_the_start(parts, seq![' ']);
        let s = joined(parts, seq![' ']);
        let tail = if parts.len() == 1 {
            Seq::empty()
        } else {
            seq![' '] + joined(rest, seq![' '])
        };
        assert(s =~= w + tail);
        assert(!white(parts[0][0]));
        assert forall|k: int| 0 <= k < w.len() implies !white(#[trigger] w[k]) by {
            assert(!white(parts[0][k]));
        }
        a_word_ends_at_a_space(w, tail);
        assert(trimmed_start(s) == s);
        assert(s.take(w.len() as int) =~= w);
        assert(s.skip(w.len() as int) =~= tail);
        if parts.len() > 1 {
            a_space_starts_no_word(joined(rest, seq![' ']));
        } else {
            assert(rest =~= Seq::empty());
            assert(words(tail) =~= Seq::empty());
        }
        assert(seq![w] + rest =~= parts);
    }
}

/// Joined texts start with the first, then the separator and the rest joined.
pub proof fn joined_from_the_start(parts: Seq<Seq<char>>, sep: Seq<char>)
    requires
        parts.len() > 0,
    ensures
        parts.len() > 1 ==> joined(parts, sep) == parts[0] + (sep + joined(parts.skip(1), sep)),
        parts.len() == 1 ==> joined(parts, sep) == parts[0],
    decreases parts.len(),
{
    if parts.len() > 1 {
        joined_from_the_start(parts.drop_last(), sep);
        let rest = parts.skip(1);
        assert(rest.drop_last() =~= parts.drop_last().skip(1));
        if parts.len() == 2 {
            assert(joined(rest, sep) =~= rest[0]);
            assert(joined(parts, sep) =~= parts[0] + (sep + joined(rest, sep)));
        } else {
            assert(joined(rest, sep) == joined(rest.drop_last(), sep) + sep + rest.last());
            assert(joined(parts, sep) =~= parts[0] + (sep + joined(rest, sep)));
        }
    }
}

proof fn a_word_ends_at_a_space(w: Seq<char>, tail: Seq<char>)
    requires
        forall|k: int| 0 <= k < w.len() ==> !white(#[trigger] w[k]),
        tail.len() > 0 ==> white(tail[0]),
    ensures
        word_len(w + tail) == w.len(),
    decreases w.len(),
{
    if w.len() > 0 {
        assert((w + tail)[0] == w[0]);
        let rest = w.skip(1);
        assert forall|k: int| 0 <= k < rest.len() implies !white(#[trigger] rest[k]) by {
            assert(!white(w[k + 1]));
        }
        a_word_ends_at_a_space(rest, tail);
        assert((w + tail).skip(1) =~= rest + tail);
    } else {
        assert(w + tail =~= tail);
    }
}

proof fn a_space_starts_no_word(s: Seq<char>)
    ensures
        words(seq![' '] + s) == words(s),
{
    let t = seq![' '] + s;
    assert(t.skip(1) =~= s);
    assert(trimmed_start(t) == trimmed_start(s));
    lemma_trimmed_start_len(s);
    lemma_word_len(trimmed_start(s));
}

/// Each of the texts that are joined stands in the whole.
pub proof fn a_part_stands_in_the_join(parts: Seq<Seq<char>>, sep: Seq<char>, i: int)
    requires
        0 <= i < parts.len(),
    ensures
        occurs_in(joined(parts, sep), parts[i]),
    decreases parts.len(),
{
    broadcast use parts_stand_in;

    if parts.len() == 1 {
        stands_in_itself(parts[0]);
    } else if i < parts.len() - 1 {
        a_part_stands_in_the_join(parts.drop_last(), sep, i);
        assert(parts.drop_last()[i] == parts[i]);
    }
}

/// A text stands in itself.
pub proof fn stands_in_itself(s: Seq<char>)
    ensures
        occurs_in(s, s),
{
    assert(s.subrange(0, s.len() as int) =~= s);
    assert(occurs_at(s, s, 0));
}

/// What stands in a part stands in the whole.
pub proof fn stands_within(whole: Seq<char>, part: Seq<char>, x: Seq<char>)
    requires
        occurs_in(whole, part),
        occurs_in(part, x),
    ensures
        occurs_in(whole, x),
{
    let a = choose|a: int| occurs_at(whole, part, a);
    let b = choose|b: int| occurs_at(part, x, b);
    assert(whole.subrange(a + b, a + b + x.len()) =~= part.subrange(b, b + x.len()));
    assert(occurs_at(whole, x, a + b));
}

} // verus!
