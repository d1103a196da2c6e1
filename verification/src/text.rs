//! Taking text apart and putting it together.

use vstd::prelude::*;

verus! {

/// The texts of strings.
pub open spec fn texts(v: Seq<String>) -> Seq<Seq<char>> {
    v.map_values(|s: String| s@)
}

/// The characters of a text.
pub fn to_chars(s: &str) -> (v: Vec<char>)
    ensures
        v@ == s@,
{
    let mut v: Vec<char> = Vec::new();
    for c in iter: s.chars()
        invariant
            iter.seq() == s@,
            v@ == s@.take(iter.index() as int),
    {
        v.push(c);
        assert(s@.take(iter.index() + 1) =~= s@.take(iter.index() as int).push(c));
    }
    assert(s@.take(s@.len() as int) =~= s@);
    v
}

/// Whether texts are the same.
pub fn same_text(a: &str, b: &str) -> (r: bool)
    ensures
        r == (a@ == b@),
{
    a.to_owned() == b.to_owned()
}

/// The text of a part of characters.
pub fn from_chars(v: &Vec<char>, from: usize, to: usize) -> (s: String)
    requires
        from <= to <= v@.len(),
    ensures
        s@ == v@.subrange(from as int, to as int),
{
    let mut s = String::new();
    let mut i: usize = from;
    assert(v@.subrange(from as int, from as int) =~= Seq::empty());
    while i < to
        invariant
            from <= i <= to <= v@.len(),
            s@ == v@.subrange(from as int, i as int),
        decreases to - i,
    {
        s.push(v[i]);
        i = i + 1;
        assert(v@.subrange(from as int, i as int) =~= v@.subrange(from as int, i - 1).push(
            v@[i - 1],
        ));
    }
    s
}

// ---------------------------------------------------------------------------------------------
// Splitting
// ---------------------------------------------------------------------------------------------

/// Where `c` is first, from `k` on, or the length if it is nowhere.
pub open spec fn position(s: Seq<char>, c: char, k: nat) -> nat
    decreases s.len() - k,
{
    if k >= s.len() {
        s.len()
    } else if s[k as int] == c {
        k
    } else {
        position(s, c, k + 1)
    }
}

/// The parts of a text between the places where `c` is.
pub open spec fn split(s: Seq<char>, c: char) -> Seq<Seq<char>>
    decreases s.len(),
{
    let p = position(s, c, 0);
    if p >= s.len() {
        seq![s]
    } else {
        seq![s.take(p as int)] + split(s.skip((p + 1) as int), c)
    }
}

/// What a position says.
pub proof fn lemma_position(s: Seq<char>, c: char, k: nat)
    requires
        k <= s.len(),
    ensures
        k <= position(s, c, k) <= s.len(),
        position(s, c, k) < s.len() ==> s[position(s, c, k) as int] == c,
        forall|i: int| k <= i < position(s, c, k) ==> #[trigger] s[i] != c,
    decreases s.len() - k,
{
    if k < s.len() && s[k as int] != c {
        lemma_position(s, c, k + 1);
    }
}

/// A position in a rest is a position in the whole.
proof fn lemma_position_skip(s: Seq<char>, c: char, from: nat, k: nat)
    requires
        from + k <= s.len(),
    ensures
        position(s.skip(from as int), c, k) + from == position(s, c, from + k),
    decreases s.len() - k,
{
    if from + k < s.len() && s[(from + k) as int] != c {
        lemma_position_skip(s, c, from, k + 1);
    }
}

/// Finds the first place of `c`, from `from` on.
pub fn find(v: &Vec<char>, c: char, from: usize) -> (p: usize)
    requires
        from <= v@.len(),
    ensures
        p == position(v@, c, from as nat),
        from <= p <= v@.len(),
{
    proof {
        lemma_position(v@, c, from as nat);
    }
    let mut i: usize = from;
    while i < v.len()
        invariant
            from <= i <= v@.len(),
            position(v@, c, from as nat) == position(v@, c, i as nat),
        decreases v@.len() - i,
    {
        if v[i] == c {
            return i;
        }
        i = i + 1;
    }
    i
}

/// Splits a text at the places where `c` is.
pub fn split_text(s: &str, c: char) -> (r: Vec<String>)
    ensures
        texts(r@) == split(s@, c),
        r@.len() > 0,
{
    let v = to_chars(s);
    let mut r: Vec<String> = Vec::new();
    let mut start: usize = 0;
    proof {
        assert(v@.skip(0) =~= v@);
        assert(texts(r@) + split(v@, c) =~= split(v@, c));
    }
    loop
        invariant_except_break
            texts(r@) + split(v@.skip(start as int), c) == split(v@, c),
        invariant
            start <= v@.len(),
            v@ == s@,
        ensures
            texts(r@) == split(s@, c),
            r@.len() > 0,
        decreases v@.len() - start + 1,
    {
        let p: usize = find(&v, c, start);
        proof {
            lemma_position_skip(v@, c, start as nat, 0);
        }
        let part = from_chars(&v, start, p);
        let ghost before = texts(r@);
        let ghost rest = v@.skip(start as int);
        r.push(part);
        assert(texts(r@) =~= before.push(part@));
        if p >= v.len() {
            proof {
                assert(part@ =~= rest);
                assert(texts(r@) =~= before + seq![rest]);
            }
            break ;
        }
        proof {
            assert(part@ =~= rest.take(p - start));
            assert(rest.skip(p - start + 1) =~= v@.skip(p + 1));
            assert(texts(r@) + split(v@.skip(p + 1), c) =~= before + (seq![part@] + split(
                v@.skip(p + 1),
                c,
            )));
        }
        start = p + 1;
    }
    r
}

/// A text that is split has one part more than it has places to split at; and between them the
/// parts make up the text again.
pub open spec fn join(parts: Seq<Seq<char>>, c: char) -> Seq<char>
    decreases parts.len(),
{
    if parts.len() == 0 {
        Seq::empty()
    } else if parts.len() == 1 {
        parts[0]
    } else {
        parts[0] + seq![c] + join(parts.skip(1), c)
    }
}

/// The parts of a text, put together again, are the text.
pub proof fn lemma_join_of_split(s: Seq<char>, c: char)
    ensures
        join(split(s, c), c) == s,
        split(s, c).len() > 0,
    decreases s.len(),
{
    let p = position(s, c, 0);
    lemma_position(s, c, 0);
    if p < s.len() {
        let rest = s.skip((p + 1) as int);
        lemma_join_of_split(rest, c);
        let parts = split(s, c);
        assert(parts.skip(1) =~= split(rest, c));
        assert(join(parts, c) =~= s.take(p as int) + seq![c] + rest);
        assert(s.take(p as int) + seq![c] + rest =~= s);
    }
}

/// Whether a character is white space, as Unicode has it.
pub open spec fn is_white(c: char) -> bool {
    ||| '\u{9}' <= c <= '\u{d}'
    ||| c == '\u{20}'
    ||| c == '\u{85}'
    ||| c == '\u{a0}'
    ||| c == '\u{1680}'
    ||| '\u{2000}' <= c <= '\u{200a}'
    ||| c == '\u{2028}'
    ||| c == '\u{2029}'
    ||| c == '\u{202f}'
    ||| c == '\u{205f}'
    ||| c == '\u{3000}'
}

fn is_white_space(c: char) -> (r: bool)
    ensures
        r == is_white(c),
{
    ('\u{9}' <= c && c <= '\u{d}') || c == '\u{20}' || c == '\u{85}' || c == '\u{a0}' || c
        == '\u{1680}' || ('\u{2000}' <= c && c <= '\u{200a}') || c == '\u{2028}' || c == '\u{2029}'
        || c == '\u{202f}' || c == '\u{205f}' || c == '\u{3000}'
}

/// The first place from `k` on where there is white space, if `white`, or else something other than
/// white space; the length if there is no such place.
pub open spec fn next_white(s: Seq<char>, white: bool, k: nat) -> nat
    decreases s.len() - k,
{
    if k >= s.len() || is_white(s[k as int]) == white {
        k
    } else {
        next_white(s, white, k + 1)
    }
}

/// The word with the number `n`, from the place `k` on: words are what is between white space.
pub open spec fn word(s: Seq<char>, n: nat, k: nat) -> Option<Seq<char>>
    decreases n,
{
    let begin = next_white(s, false, k);
    let end = next_white(s, true, begin);
    if begin >= s.len() {
        None
    } else if n == 0 {
        Some(s.subrange(begin as int, end as int))
    } else {
        word(s, (n - 1) as nat, end)
    }
}

fn skip_to(v: &Vec<char>, white: bool, from: usize) -> (p: usize)
    requires
        from <= v@.len(),
    ensures
        p == next_white(v@, white, from as nat),
        from <= p <= v@.len(),
{
    let mut i: usize = from;
    while i < v.len()
        invariant
            from <= i <= v@.len(),
            next_white(v@, white, from as nat) == next_white(v@, white, i as nat),
        decreases v@.len() - i,
    {
        if is_white_space(v[i]) == white {
            return i;
        }
        i = i + 1;
    }
    i
}

/// The word with the number `n`, which starts at 0.
pub fn nth_word(s: &str, n: usize) -> (r: Option<String>)
    ensures
        match r {
            Some(w) => word(s@, n as nat, 0) == Some(w@),
            None => word(s@, n as nat, 0) is None,
        },
{
    let v = to_chars(s);
    let mut from: usize = 0;
    let mut left: usize = n;
    loop
        invariant
            v@ == s@,
            from <= v@.len(),
            word(v@, left as nat, from as nat) == word(s@, n as nat, 0),
        decreases left,
    {
        let begin: usize = skip_to(&v, false, from);
        if begin >= v.len() {
            return None;
        }
        let end: usize = skip_to(&v, true, begin);
        if left == 0 {
            return Some(from_chars(&v, begin, end));
        }
        left = left - 1;
        from = end;
    }
}

// ---------------------------------------------------------------------------------------------
// Numbers
// ---------------------------------------------------------------------------------------------

/// Whether a character is a decimal digit.
pub open spec fn is_digit(c: char) -> bool {
    '0' <= c <= '9'
}

/// The number that decimal digits stand for.
pub open spec fn decimal(s: Seq<char>) -> int
    decreases s.len(),
{
    if s.len() == 0 {
        0
    } else {
        decimal(s.drop_last()) * 10 + (s.last() as int - '0' as int)
    }
}

/// A text without the plus sign at its begin.
pub open spec fn without_plus(s: Seq<char>) -> Seq<char> {
    if s.len() > 1 && s[0] == '+' {
        s.skip(1)
    } else {
        s
    }
}

/// The number that a text stands for: digits, with or without a plus sign, of a number that is not
/// larger than `max`.
pub open spec fn parsed(s: Seq<char>, max: int) -> Option<int> {
    let d = without_plus(s);
    if d.len() > 0 && (forall|i: int| 0 <= i < d.len() ==> is_digit(#[trigger] d[i])) && decimal(d)
        <= max {
        Some(decimal(d))
    } else {
        None
    }
}

proof fn lemma_decimal_grows(s: Seq<char>, k: nat)
    requires
        k <= s.len(),
        forall|i: int| 0 <= i < s.len() ==> is_digit(#[trigger] s[i]),
    ensures
        0 <= decimal(s.take(k as int)) <= decimal(s),
    decreases s.len(),
{
    if s.len() == 0 {
        assert(s.take(0) =~= s);
    } else if k == s.len() {
        assert(s.take(k as int) =~= s);
        lemma_decimal_grows(s.drop_last(), (s.len() - 1) as nat);
        assert(is_digit(s[s.len() - 1]));
        assert(s.drop_last().take(s.len() - 1) =~= s.drop_last());
    } else {
        lemma_decimal_grows(s.drop_last(), k);
        assert(s.drop_last().take(k as int) =~= s.take(k as int));
        assert(is_digit(s[s.len() - 1]));
    }
}

/// Parses a number that is not larger than `max`.
pub fn parse_number(s: &str, max: u64) -> (r: Option<u64>)
    ensures
        match r {
            Some(n) => parsed(s@, max as int) == Some(n as int),
            None => parsed(s@, max as int) is None,
        },
{
    let v = to_chars(s);
    let start: usize = if v.len() > 1 && v[0] == '+' {
        1
    } else {
        0
    };
    let ghost d = without_plus(s@);
    assert(v@.skip(start as int) =~= d);
    if start >= v.len() {
        return None;
    }
    let mut n: u64 = 0;
    let mut i: usize = start;
    assert(d.take(0) =~= Seq::empty());
    while i < v.len()
        invariant
            start <= i <= v@.len(),
            v@ == s@,
            d == without_plus(s@),
            v@.skip(start as int) == d,
            d.len() > 0,
            forall|j: int| 0 <= j < i - start ==> is_digit(#[trigger] d[j]),
            n == decimal(d.take(i - start)),
            n <= max,
        decreases v@.len() - i,
    {
        let c = v[i];
        assert(c == d[i - start]);
        if c < '0' || c > '9' {
            assert(!is_digit(d[i - start]));
            return None;
        }
        let digit: u64 = c as u64 - '0' as u64;
        let next: u128 = n as u128 * 10 + digit as u128;
        proof {
            let upto = d.take(i - start + 1);
            assert(upto.drop_last() =~= d.take(i - start));
            assert(decimal(upto) == next);
        }
        if next > max as u128 {
            proof {
                if forall|j: int| 0 <= j < d.len() ==> is_digit(#[trigger] d[j]) {
                    lemma_decimal_grows(d, (i - start + 1) as nat);
                }
            }
            return None;
        }
        n = next as u64;
        i = i + 1;
    }
    assert(d.take(i - start) =~= d);
    Some(n)
}

/// A number as decimal digits.
pub open spec fn decimal_text(n: nat) -> Seq<char>
    decreases n,
{
    if n < 10 {
        seq![('0' as int + n) as char]
    } else {
        decimal_text(n / 10).push(('0' as int + n % 10) as char)
    }
}

fn digit_char(n: u64) -> (c: char)
    requires
        n < 10,
    ensures
        c as int == '0' as int + n,
{
    let d: u8 = n as u8;
    (48u8 + d) as char
}

/// Appends a number as decimal digits.
pub fn append_number(s: &mut String, n: u64)
    ensures
        final(s)@ == old(s)@ + decimal_text(n as nat),
    decreases n,
{
    if n >= 10 {
        append_number(s, n / 10);
    }
    s.push(digit_char(n % 10));
    assert(s@ =~= old(s)@ + decimal_text(n as nat));
}

/// A number that is written down reads as the same number.
pub proof fn lemma_number_reads_back(n: nat, max: int)
    requires
        n <= max,
    ensures
        parsed(decimal_text(n), max) == Some(n as int),
        forall|i: int| 0 <= i < decimal_text(n).len() ==> is_digit(#[trigger] decimal_text(n)[i]),
{
    lemma_decimal_text(n);
    let s = decimal_text(n);
    assert(is_digit(s[0]));
    assert(without_plus(s) == s);
}

proof fn lemma_decimal_text(n: nat)
    ensures
        decimal_text(n).len() > 0,
        decimal(decimal_text(n)) == n,
        forall|i: int| 0 <= i < decimal_text(n).len() ==> is_digit(#[trigger] decimal_text(n)[i]),
    decreases n,
{
    if n < 10 {
        let s = decimal_text(n);
        assert(s.drop_last() =~= Seq::empty());
        assert(decimal(s.drop_last()) == 0);
    } else {
        lemma_decimal_text(n / 10);
        let before = decimal_text(n / 10);
        let s = decimal_text(n);
        assert(s.drop_last() =~= before);
        assert forall|i: int| 0 <= i < s.len() implies is_digit(#[trigger] s[i]) by {
            if i < before.len() {
                assert(s[i] == before[i]);
            }
        }
    }
}

// ---------------------------------------------------------------------------------------------
// Searching
// ---------------------------------------------------------------------------------------------

/// Whether `needle` is at place `i` of `hay`.
pub open spec fn is_at<T>(hay: Seq<T>, needle: Seq<T>, i: int) -> bool {
    0 <= i <= hay.len() - needle.len() && hay.subrange(i, i + needle.len()) == needle
}

/// Whether `needle` is somewhere in `hay`.
pub open spec fn occurs<T>(hay: Seq<T>, needle: Seq<T>) -> bool {
    exists|i: int| is_at(hay, needle, i)
}

/// Whether `needle` is at place `i` of `hay`.
pub fn bytes_at(hay: &[u8], needle: &[u8], i: usize) -> (r: bool)
    requires
        i + needle@.len() <= hay@.len(),
    ensures
        r == is_at(hay@, needle@, i as int),
{
    let n: usize = hay.len();
    let ghost part = hay@.subrange(i as int, i + needle@.len());
    let mut k: usize = 0;
    while k < needle.len()
        invariant
            k <= needle@.len(),
            i + needle@.len() <= hay@.len() <= usize::MAX,
            part == hay@.subrange(i as int, i + needle@.len()),
            forall|j: int| 0 <= j < k ==> part[j] == needle@[j],
        decreases needle@.len() - k,
    {
        assert(part[k as int] == hay@[i + k]);
        if hay[i + k] != needle[k] {
            return false;
        }
        k = k + 1;
    }
    assert(part =~= needle@);
    true
}

/// Whether `needle` is somewhere in `hay`.
pub fn contains_bytes(hay: &[u8], needle: &[u8]) -> (r: bool)
    ensures
        r == occurs(hay@, needle@),
{
    if needle.len() > hay.len() {
        return false;
    }
    let last: usize = hay.len() - needle.len();
    let mut i: usize = 0;
    while i <= last
        invariant
            i <= last + 1,
            last == hay@.len() - needle@.len(),
            forall|j: int| 0 <= j < i ==> !is_at(hay@, needle@, j),
        decreases last + 1 - i,
    {
        if bytes_at(hay, needle, i) {
            return true;
        }
        if i == last {
            assert forall|j: int| !is_at(hay@, needle@, j) by {}
            return false;
        }
        i = i + 1;
    }
    false
}

/// A text with every place of `from`, one after the other, made into `to`.
pub open spec fn replaced(s: Seq<char>, from: Seq<char>, to: Seq<char>) -> Seq<char>
    decreases s.len(),
{
    if from.len() == 0 || s.len() < from.len() {
        s
    } else if s.take(from.len() as int) == from {
        to + replaced(s.skip(from.len() as int), from, to)
    } else {
        seq![s[0]] + replaced(s.skip(1), from, to)
    }
}

fn chars_at(v: &Vec<char>, from: &Vec<char>, i: usize) -> (r: bool)
    requires
        i + from@.len() <= v@.len(),
    ensures
        r == (v@.skip(i as int).take(from@.len() as int) == from@),
{
    let n: usize = v.len();
    let ghost part = v@.skip(i as int).take(from@.len() as int);
    let mut k: usize = 0;
    while k < from.len()
        invariant
            k <= from@.len(),
            i + from@.len() <= v@.len() <= usize::MAX,
            part == v@.skip(i as int).take(from@.len() as int),
            forall|j: int| 0 <= j < k ==> part[j] == from@[j],
        decreases from@.len() - k,
    {
        assert(part[k as int] == v@[i + k]);
        if v[i + k] != from[k] {
            return false;
        }
        k = k + 1;
    }
    assert(part =~= from@);
    true
}

/// Whether the text `needle` is somewhere in the text `hay`.
pub fn contains_text(hay: &str, needle: &str) -> (r: bool)
    ensures
        r == occurs(hay@, needle@),
{
    let v = to_chars(hay);
    let n = to_chars(needle);
    if n.len() > v.len() {
        return false;
    }
    let last: usize = v.len() - n.len();
    let mut i: usize = 0;
    while i <= last
        invariant
            i <= last + 1,
            v@ == hay@,
            n@ == needle@,
            last == v@.len() - n@.len(),
            forall|j: int| 0 <= j < i ==> !is_at(v@, n@, j),
        decreases last + 1 - i,
    {
        assert(v@.skip(i as int).take(n@.len() as int) =~= v@.subrange(i as int, i + n@.len()));
        if chars_at(&v, &n, i) {
            assert(is_at(v@, n@, i as int));
            return true;
        }
        if i == last {
            assert forall|j: int| !is_at(v@, n@, j) by {}
            return false;
        }
        i = i + 1;
    }
    false
}

/// Makes every place of `from` into `to`.
pub fn replace_text(s: &str, from: &str, to: &str) -> (r: String)
    requires
        from@.len() > 0,
    ensures
        r@ == replaced(s@, from@, to@),
{
    let v = to_chars(s);
    let f = to_chars(from);
    let mut r = String::new();
    let mut i: usize = 0;
    proof {
        assert(v@.skip(0) =~= v@);
        assert(Seq::<char>::empty() + replaced(v@, f@, to@) =~= replaced(v@, f@, to@));
    }
    while v.len() - i >= f.len()
        invariant
            i <= v@.len(),
            v@ == s@,
            f@ == from@,
            f@.len() > 0,
            r@ + replaced(v@.skip(i as int), f@, to@) == replaced(s@, f@, to@),
        decreases v@.len() - i,
    {
        let ghost before = r@;
        let ghost rest = v@.skip(i as int);
        if chars_at(&v, &f, i) {
            r.append(to);
            i = i + f.len();
            proof {
                assert(rest.skip(f@.len() as int) =~= v@.skip(i as int));
                assert(r@ + replaced(v@.skip(i as int), f@, to@) =~= before + (to@ + replaced(
                    v@.skip(i as int),
                    f@,
                    to@,
                )));
            }
        } else {
            r.push(v[i]);
            i = i + 1;
            proof {
                assert(rest.skip(1) =~= v@.skip(i as int));
                assert(r@ + replaced(v@.skip(i as int), f@, to@) =~= before + (seq![rest[0]]
                    + replaced(v@.skip(i as int), f@, to@)));
            }
        }
    }
    let rest = from_chars(&v, i, v.len());
    assert(rest@ =~= v@.skip(i as int));
    r.append(rest.as_str());
    r
}

/// A text without `from` in it stays as it is.
pub proof fn lemma_nothing_to_replace(s: Seq<char>, from: Seq<char>, to: Seq<char>)
    requires
        !occurs(s, from),
    ensures
        replaced(s, from, to) == s,
    decreases s.len(),
{
    if from.len() > 0 && s.len() >= from.len() {
        assert(s.take(from.len() as int) =~= s.subrange(0, from.len() as int));
        assert(!is_at(s, from, 0));
        let rest = s.skip(1);
        assert forall|i: int| !is_at(rest, from, i) by {
            if 0 <= i <= rest.len() - from.len() {
                assert(rest.subrange(i, i + from.len()) =~= s.subrange(i + 1, i + 1 + from.len()));
                assert(!is_at(s, from, i + 1));
            }
        }
        lemma_nothing_to_replace(rest, from, to);
        assert(seq![s[0]] + rest =~= s);
    }
}

// ---------------------------------------------------------------------------------------------
// Laws
// ---------------------------------------------------------------------------------------------

/// A text is split at every place of `c`: no part has it in it.
pub proof fn lemma_no_separator_in_parts(s: Seq<char>, c: char, i: int)
    requires
        0 <= i < split(s, c).len(),
    ensures
        !split(s, c)[i].contains(c),
    decreases s.len(),
{
    let p = position(s, c, 0);
    lemma_position(s, c, 0);
    if p < s.len() {
        if i == 0 {
            assert(split(s, c)[0] =~= s.take(p as int));
        } else {
            lemma_no_separator_in_parts(s.skip((p + 1) as int), c, i - 1);
        }
    }
}

/// A text without `c` in it is one part. What is before the first `c` is the first part, and what is
/// behind it is split in turn.
pub proof fn lemma_split_at_first(before: Seq<char>, after: Seq<char>, c: char)
    requires
        !before.contains(c),
    ensures
        split(before, c) == seq![before],
        split(before + seq![c] + after, c) == seq![before] + split(after, c),
{
    let s = before + seq![c] + after;
    lemma_position(s, c, 0);
    lemma_position(before, c, 0);
    let p = position(s, c, 0);
    assert(s[before.len() as int] == c);
    if p < before.len() {
        assert(before[p as int] == c);
    }
    if position(before, c, 0) < before.len() {
        assert(before.contains(c));
    }
    assert(s.take(p as int) =~= before);
    assert(s.skip((p + 1) as int) =~= after);
}

/// In plain text, white space is the blank and what moves on to the next column, line or page.
pub proof fn lemma_plain_white_space(c: char)
    requires
        c as int <= 127,
    ensures
        is_white(c) <==> c == ' ' || 9 <= c as int <= 13,
{
}

proof fn lemma_next_white(s: Seq<char>, white: bool, k: nat, p: nat)
    requires
        k <= p <= s.len(),
        forall|i: int| k <= i < p ==> is_white(#[trigger] s[i]) != white,
        p < s.len() ==> is_white(s[p as int]) == white,
    ensures
        next_white(s, white, k) == p,
    decreases p - k,
{
    if k < p {
        assert(is_white(s[k as int]) != white);
        lemma_next_white(s, white, k + 1, p);
    }
}

/// Words are what stands between white space: the first word of a text is what follows on the white
/// space at its begin, up to the next; the others are the words of what is behind it. A text of
/// white space alone has none.
pub proof fn lemma_words(s: Seq<char>, k: nat, begin: nat, end: nat, n: nat)
    requires
        k <= begin <= end <= s.len(),
        forall|i: int| k <= i < begin ==> is_white(#[trigger] s[i]),
        forall|i: int| begin <= i < end ==> !is_white(#[trigger] s[i]),
        begin < end || end == s.len(),
        end < s.len() ==> is_white(s[end as int]),
    ensures
        begin < end ==> word(s, 0, k) == Some(s.subrange(begin as int, end as int)),
        begin < end ==> word(s, n + 1, k) == word(s, n, end),
        begin == end ==> word(s, n, k) is None,
{
    if begin < end {
        assert(!is_white(s[begin as int]));
    }
    lemma_next_white(s, false, k, begin);
    lemma_next_white(s, true, begin, end);
}

/// Each digit that is added to a number makes it ten times as large and adds the value of the digit.
/// A number is written with its highest digit first.
pub proof fn lemma_digits_count_by_ten(s: Seq<char>, n: nat, d: nat)
    requires
        d < 10,
        n > 0,
    ensures
        decimal(Seq::empty()) == 0,
        decimal(s.push(('0' as int + d) as char)) == decimal(s) * 10 + d,
        decimal_text(d) == seq![('0' as int + d) as char],
        decimal_text(n * 10 + d) == decimal_text(n).push(('0' as int + d) as char),
{
    let c = ('0' as int + d) as char;
    assert(s.push(c).drop_last() =~= s);
}

/// Digits read as the number that they stand for, if it is not too large, and so do digits behind a
/// plus sign. A text with anything else in it, or with no digits, does not read as a number.
pub proof fn lemma_what_reads_as_number(d: Seq<char>, max: int, i: int)
    requires
        d.len() == 0 || d[0] != '+',
    ensures
        ({
            let plus = seq!['+'] + d;
            &&& parsed(plus, max) == parsed(d, max) || d.len() == 0
            &&& d.len() == 0 ==> parsed(d, max) is None && parsed(plus, max) is None
            &&& 0 <= i < d.len() && !('0' <= d[i] <= '9') ==> parsed(d, max) is None
            &&& parsed(d, max) matches Some(n) ==> n == decimal(d) && n <= max
            &&& d.len() > 0 && (forall|j: int| 0 <= j < d.len() ==> '0' <= #[trigger] d[j] <= '9')
                && decimal(d) <= max ==> parsed(d, max) == Some(decimal(d))
        }),
{
    let plus = seq!['+'] + d;
    assert(plus.skip(1) =~= d);
    if d.len() == 0 {
        assert(plus =~= seq!['+']);
        assert(!is_digit(plus[0]));
    }
    if 0 <= i < d.len() && !('0' <= d[i] <= '9') {
        assert(!is_digit(d[i]));
    }
    if d.len() > 0 && (forall|j: int| 0 <= j < d.len() ==> '0' <= #[trigger] d[j] <= '9') {
        assert forall|j: int| 0 <= j < d.len() implies is_digit(#[trigger] d[j]) by {
            assert('0' <= d[j] <= '9');
        }
    }
}

/// The first place of a text that is replaced takes what stands before it along as it is, and what
/// stands behind it is treated in turn.
pub proof fn lemma_replaced_at_first(
    before: Seq<char>,
    after: Seq<char>,
    from: Seq<char>,
    to: Seq<char>,
)
    requires
        from.len() > 0,
        forall|i: int|
            0 <= i < before.len() ==> !(#[trigger] is_at(before + from + after, from, i)),
    ensures
        replaced(before + from + after, from, to) == before + to + replaced(after, from, to),
    decreases before.len(),
{
    let s = before + from + after;
    let n = from.len() as int;
    if before.len() == 0 {
        assert(s.take(n) =~= from);
        assert(s.skip(n) =~= after);
        assert(before + to + replaced(after, from, to) =~= to + replaced(after, from, to));
    } else {
        let rest = before.skip(1) + from + after;
        assert(s.skip(1) =~= rest);
        assert(s.take(n) =~= s.subrange(0, n));
        assert(!is_at(s, from, 0));
        assert forall|i: int| 0 <= i < before.skip(1).len() implies !(#[trigger] is_at(
            before.skip(1) + from + after,
            from,
            i,
        )) by {
            assert(!is_at(s, from, i + 1));
            if i <= rest.len() - n {
                assert(rest.subrange(i, i + n) =~= s.subrange(i + 1, i + 1 + n));
            }
        }
        lemma_replaced_at_first(before.skip(1), after, from, to);
        assert(s[0] == before[0]);
        assert(seq![before[0]] + (before.skip(1) + to + replaced(after, from, to)) =~= before + to
            + replaced(after, from, to));
    }
}

/// A text that reads as a number reads as one that is neither negative nor too large.
pub proof fn lemma_parsed_in_range(s: Seq<char>, max: int)
    ensures
        parsed(s, max) matches Some(n) ==> 0 <= n <= max,
{
    let d = without_plus(s);
    if parsed(s, max) is Some {
        lemma_decimal_grows(d, d.len());
    }
}

/// A text occurs in another exactly if that is made up of something, the text and something more.
pub proof fn lemma_occurs_between<T>(before: Seq<T>, needle: Seq<T>, after: Seq<T>)
    ensures
        is_at(before + needle + after, needle, before.len() as int),
        occurs(before + needle + after, needle),
{
    let hay = before + needle + after;
    let i = before.len() as int;
    assert(hay.subrange(i, i + needle.len()) =~= needle);
    assert(is_at(hay, needle, i));
}

/// What stands before and behind the place at which a text occurs, with the text between, is the
/// whole.
pub proof fn lemma_parts_of_occurrence<T>(hay: Seq<T>, needle: Seq<T>, i: int)
    requires
        is_at(hay, needle, i),
    ensures
        0 <= i <= hay.len() - needle.len(),
        hay.take(i) + needle + hay.skip(i + needle.len()) == hay,
        occurs(hay, needle),
{
    assert(hay.take(i) + hay.subrange(i, i + needle.len()) + hay.skip(i + needle.len()) =~= hay);
}

/// The white space of ASCII is the tab, the four kinds of line end and the blank. Beyond ASCII the
/// Latin letters have two characters of it, the blanks of typography are in one row, and five stand
/// alone or in a pair.
pub proof fn lemma_white_space_by_number(c: char)
    ensures
        c as u32 <= 0x7F ==> (is_white(c) <==> 9 <= c as u32 <= 13 || c as u32 == 32),
        0x80 <= c as u32 <= 0x167F ==> (is_white(c) <==> c as u32 == 0x85 || c as u32 == 0xA0),
        0x1680 <= c as u32 <= 0x1FFF ==> (is_white(c) <==> c as u32 == 0x1680),
        0x2000 <= c as u32 <= 0x2027 ==> (is_white(c) <==> c as u32 <= 0x200A),
        0x2028 <= c as u32 <= 0x2FFF ==> (is_white(c) <==> c as u32 == 0x2028 || c as u32 == 0x2029
            || c as u32 == 0x202F || c as u32 == 0x205F),
        0x3000 <= c as u32 ==> (is_white(c) <==> c as u32 == 0x3000),
{
}

} // verus!
