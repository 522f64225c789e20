//! Character-level helpers: decimal numbers, ASCII case folding and
//! conversions between `&str`, `String` and `Vec<char>`.

use vstd::prelude::*;

verus! {

/// Whether `c` is one of the ASCII digits `0` to `9`.
pub open spec fn is_digit(c: char) -> bool {
    '0' <= c && c <= '9'
}

/// The numeric value of an ASCII digit.
pub open spec fn digit_value(c: char) -> nat {
    (c as int - '0' as int) as nat
}

/// Whether every character of `s` is an ASCII digit.
pub open spec fn all_digits(s: Seq<char>) -> bool {
    forall|i: int| 0 <= i < s.len() ==> is_digit(#[trigger] s[i])
}

/// The number denoted by a run of ASCII digits (most significant first).
pub open spec fn digits_value(s: Seq<char>) -> nat
    decreases s.len(),
{
    if s.len() == 0 {
        0
    } else {
        digits_value(s.drop_last()) * 10 + digit_value(s.last())
    }
}

/// The character of the decimal digit `d` (`d < 10`).
pub open spec fn digit_char(d: nat) -> char {
    ((d + '0' as nat) as u32) as char
}

/// The decimal rendering of `n`, without leading zeros.
pub open spec fn dec(n: nat) -> Seq<char>
    decreases n,
{
    if n < 10 {
        seq![digit_char(n)]
    } else {
        dec(n / 10).push(digit_char(n % 10))
    }
}

/// What `str::parse` of an unsigned integer type whose largest value is `max`
/// gives: an optional leading `+`, then one or more ASCII digits whose value
/// is at most `max`.
pub open spec fn spec_parse_uint(s: Seq<char>, max: nat) -> Option<nat> {
    let digits = if s.len() > 0 && s[0] == '+' { s.drop_first() } else { s };
    if digits.len() > 0 && all_digits(digits) && digits_value(digits) <= max {
        Some(digits_value(digits))
    } else {
        None
    }
}

proof fn lemma_digits_value_push(s: Seq<char>, c: char)
    ensures
        digits_value(s.push(c)) == digits_value(s) * 10 + digit_value(c),
{
    assert(s.push(c).drop_last() =~= s);
}

/// Parses `s` as `str::parse::<u64>` would, limited to values at most `max`.
pub fn parse_uint(s: &Vec<char>, max: u64) -> (res: Option<u64>)
    ensures
        match res {
            Some(v) => spec_parse_uint(s@, max as nat) == Some(v as nat),
            None => spec_parse_uint(s@, max as nat) is None,
        },
{
    let start: usize = if s.len() > 0 && s[0] == '+' { 1 } else { 0 };
    let ghost digits = if s@.len() > 0 && s@[0] == '+' { s@.drop_first() } else { s@ };
    assert(digits =~= s@.subrange(start as int, s@.len() as int));
    if start >= s.len() {
        return None;
    }
    let mut value: u64 = 0;
    let mut i: usize = start;
    while i < s.len()
        invariant
            start <= i <= s.len(),
            digits =~= s@.subrange(start as int, s@.len() as int),
            digits == (if s@.len() > 0 && s@[0] == '+' { s@.drop_first() } else { s@ }),
            value as nat == digits_value(s@.subrange(start as int, i as int)),
            value <= max,
            all_digits(s@.subrange(start as int, i as int)),
        decreases s.len() - i,
    {
        let c = s[i];
        let ghost prefix = s@.subrange(start as int, i as int);
        assert(s@.subrange(start as int, i + 1) =~= prefix.push(c));
        if !('0' <= c && c <= '9') {
            assert(digits[i - start] == c);
            return None;
        }
        let d: u64 = (c as u32 - '0' as u32) as u64;
        proof {
            lemma_digits_value_push(prefix, c);
        }
        let next: u128 = value as u128 * 10 + d as u128;
        if next > max as u128 {
            proof {
                assert(digits.subrange(0, i - start + 1) =~= s@.subrange(start as int, i + 1));
                assert(digits.subrange(0, i - start) =~= prefix);
                lemma_value_exceeds(digits, (i - start) as int, max as nat);
            }
            return None;
        }
        value = next as u64;
        i = i + 1;
    }
    assert(s@.subrange(start as int, i as int) =~= digits);
    Some(value)
}

/// Once a prefix of a digit run exceeds `max`, the whole run does too.
proof fn lemma_value_exceeds(digits: Seq<char>, k: int, max: nat)
    requires
        0 <= k < digits.len(),
        all_digits(digits.subrange(0, k)),
        digits_value(digits.subrange(0, k + 1)) > max,
    ensures
        !(all_digits(digits) && digits_value(digits) <= max),
    decreases digits.len(),
{
    if all_digits(digits) {
        if k + 1 == digits.len() {
            assert(digits.subrange(0, k + 1) =~= digits);
        } else {
            let shorter = digits.drop_last();
            assert(shorter.subrange(0, k) =~= digits.subrange(0, k));
            assert(shorter.subrange(0, k + 1) =~= digits.subrange(0, k + 1));
            lemma_value_exceeds(shorter, k, max);
            assert(digits.drop_last() =~= shorter);
        }
    }
}

/// The ASCII lower-case form of `c` (other characters are unchanged).
pub open spec fn ascii_lower(c: char) -> char {
    if 'A' <= c && c <= 'Z' {
        ((c as u32) + 32) as char
    } else {
        c
    }
}

/// Whether `a` and `b` are equal when ASCII letters are compared without case.
pub open spec fn eq_ignore_ascii_case(a: Seq<char>, b: Seq<char>) -> bool {
    a.len() == b.len() && forall|i: int| 0 <= i < a.len() ==> ascii_lower(#[trigger] a[i]) == ascii_lower(b[i])
}

/// Whether `s` begins with `prefix`.
pub open spec fn has_prefix(s: Seq<char>, prefix: Seq<char>) -> bool {
    prefix.len() <= s.len() && s.subrange(0, prefix.len() as int) == prefix
}

/// `String::push` of the standard library: appends `c` to `s`.
#[verifier::external_body]
pub(crate) fn push_char(s: &mut String, c: char)
    ensures
        final(s)@ == old(s)@.push(c),
{
    s.push(c)
}

/// The characters of `s`.
pub fn chars_of(s: &str) -> (v: Vec<char>)
    ensures
        v@ == s@,
{
    broadcast use vstd::string::group_string_axioms;

    let mut v: Vec<char> = Vec::new();
    let mut it = s.chars();
    loop
        invariant
            v@ + vstd::std_specs::iter::IteratorSpec::remaining(&it) == s@,
        decreases s@.len() - v@.len(),
    {
        match it.next() {
            Some(c) => {
                v.push(c);
            },
            None => {
                return v;
            },
        }
    }
}

/// A `String` holding the characters `v`.
pub fn string_of(v: &[char]) -> (s: String)
    ensures
        s@ == v@,
{
    let mut s = String::new();
    let mut i: usize = 0;
    while i < v.len()
        invariant
            i <= v.len(),
            s@ == v@.subrange(0, i as int),
        decreases v.len() - i,
    {
        push_char(&mut s, v[i]);
        assert(v@.subrange(0, i + 1) =~= v@.subrange(0, i as int).push(v@[i as int]));
        i = i + 1;
    }
    assert(v@.subrange(0, v@.len() as int) =~= v@);
    s
}

/// Appends the decimal rendering of `n` to `s`.
pub fn push_decimal(s: &mut String, n: u64)
    ensures
        final(s)@ == old(s)@ + dec(n as nat),
    decreases n,
{
    if n >= 10 {
        push_decimal(s, n / 10);
    }
    let d: u32 = (n % 10) as u32;
    let c: char = char_from_digit(d);
    push_char(s, c);
    assert(s@ =~= old(s)@ + dec(n as nat));
}

/// The character of the decimal digit `d`.
pub fn char_from_digit(d: u32) -> (c: char)
    requires
        d < 10,
    ensures
        c == digit_char(d as nat),
{
    if d == 0 { '0' } else if d == 1 { '1' } else if d == 2 { '2' } else if d == 3 { '3' }
    else if d == 4 { '4' } else if d == 5 { '5' } else if d == 6 { '6' } else if d == 7 { '7' }
    else if d == 8 { '8' } else { '9' }
}

/// Whether `a` and `b` are equal ignoring ASCII case.
pub fn chars_eq_ignore_ascii_case(a: &[char], b: &[char]) -> (res: bool)
    ensures
        res == eq_ignore_ascii_case(a@, b@),
{
    if a.len() != b.len() {
        return false;
    }
    let mut i: usize = 0;
    while i < a.len()
        invariant
            a@.len() == b@.len(),
            i <= a.len(),
            forall|j: int| 0 <= j < i ==> ascii_lower(#[trigger] a@[j]) == ascii_lower(b@[j]),
        decreases a.len() - i,
    {
        if lower_char(a[i]) != lower_char(b[i]) {
            return false;
        }
        i = i + 1;
    }
    true
}

/// The ASCII lower-case form of `c`.
pub fn lower_char(c: char) -> (r: char)
    ensures
        r == ascii_lower(c),
{
    if 'A' <= c && c <= 'Z' {
        let code: u32 = c as u32 + 32;
        char_from_ascii_code(code)
    } else {
        c
    }
}

/// The character with the given code point below 128.
fn char_from_ascii_code(code: u32) -> (c: char)
    requires
        code < 128,
    ensures
        c == code as char,
{
    let b: u8 = code as u8;
    b as char
}

/// Whether `s` begins with `prefix`.
pub fn starts_with(s: &[char], prefix: &[char]) -> (res: bool)
    ensures
        res == has_prefix(s@, prefix@),
{
    if prefix.len() > s.len() {
        return false;
    }
    let mut i: usize = 0;
    while i < prefix.len()
        invariant
            prefix@.len() <= s@.len(),
            i <= prefix.len(),
            forall|j: int| 0 <= j < i ==> s@[j] == prefix@[j],
        decreases prefix.len() - i,
    {
        if s[i] != prefix[i] {
            assert(s@.subrange(0, prefix@.len() as int)[i as int] != prefix@[i as int]);
            return false;
        }
        i = i + 1;
    }
    assert(s@.subrange(0, prefix@.len() as int) =~= prefix@);
    true
}

/// The number of ASCII digits at the start of `s`.
pub open spec fn digit_run(s: Seq<char>) -> nat
    decreases s.len(),
{
    if s.len() > 0 && is_digit(s[0]) {
        1 + digit_run(s.drop_first())
    } else {
        0
    }
}

/// The index of the first `c` in `s`, if any.
pub open spec fn find_char(s: Seq<char>, c: char) -> Option<nat>
    decreases s.len(),
{
    if s.len() == 0 {
        None
    } else if s[0] == c {
        Some(0)
    } else {
        match find_char(s.drop_first(), c) {
            Some(i) => Some(i + 1),
            None => None,
        }
    }
}

/// Facts about `digit_run`: it stays within `s`, covers only digits, and stops
/// at the end or at a non-digit.
pub proof fn lemma_digit_run(s: Seq<char>)
    ensures
        digit_run(s) <= s.len(),
        all_digits(s.take(digit_run(s) as int)),
        digit_run(s) < s.len() ==> !is_digit(s[digit_run(s) as int]),
    decreases s.len(),
{
    if s.len() > 0 && is_digit(s[0]) {
        lemma_digit_run(s.drop_first());
        let n: int = digit_run(s.drop_first()) as int;
        assert forall|i: int| 0 <= i < n + 1 implies is_digit(#[trigger] s.take(n + 1)[i]) by {
            if i > 0 {
                assert(s.take(n + 1)[i] == s.drop_first().take(n)[i - 1]);
            }
        }
        if n + 1 < s.len() {
            assert(s[n + 1] == s.drop_first()[n]);
        }
    }
}

/// Facts about `find_char`: the index it gives holds `c` and no earlier one does;
/// when it gives none, `c` does not occur.
pub proof fn lemma_find_char(s: Seq<char>, c: char)
    ensures
        match find_char(s, c) {
            Some(i) => i < s.len() && s[i as int] == c && forall|j: int| 0 <= j < i ==> s[j] != c,
            None => forall|j: int| 0 <= j < s.len() ==> s[j] != c,
        },
    decreases s.len(),
{
    if s.len() > 0 && s[0] != c {
        lemma_find_char(s.drop_first(), c);
        match find_char(s.drop_first(), c) {
            Some(i) => {
                assert forall|j: int| 0 <= j < i + 1 implies s[j] != c by {
                    if j > 0 {
                        assert(s[j] == s.drop_first()[j - 1]);
                    }
                }
            },
            None => {
                assert forall|j: int| 0 <= j < s.len() implies s[j] != c by {
                    if j > 0 {
                        assert(s[j] == s.drop_first()[j - 1]);
                    }
                }
            },
        }
    }
}

/// The number of ASCII digits at the start of `s[from..]`.
pub fn digit_run_at(s: &[char], from: usize) -> (n: usize)
    requires
        from <= s.len(),
    ensures
        n as nat == digit_run(s@.subrange(from as int, s@.len() as int)),
        from + n <= s.len(),
{
    let mut i: usize = from;
    while i < s.len() && '0' <= s[i] && s[i] <= '9'
        invariant
            from <= i <= s.len(),
            digit_run(s@.subrange(from as int, s@.len() as int)) == (i - from) + digit_run(
                s@.subrange(i as int, s@.len() as int),
            ),
        decreases s.len() - i,
    {
        let ghost rest = s@.subrange(i as int, s@.len() as int);
        assert(rest.drop_first() =~= s@.subrange(i + 1, s@.len() as int));
        i = i + 1;
    }
    i - from
}

/// The index of the first `c` in `s[from..]`, counted from `from`.
pub fn find_char_at(s: &[char], from: usize, c: char) -> (res: Option<usize>)
    requires
        from <= s.len(),
    ensures
        match res {
            Some(i) => find_char(s@.subrange(from as int, s@.len() as int), c) == Some(
                (i - from) as nat,
            ) && from <= i < s.len(),
            None => find_char(s@.subrange(from as int, s@.len() as int), c) is None,
        },
{
    let mut i: usize = from;
    while i < s.len()
        invariant
            from <= i <= s.len(),
            find_char(s@.subrange(from as int, s@.len() as int), c) == (match find_char(
                s@.subrange(i as int, s@.len() as int),
                c,
            ) {
                Some(k) => Some((k + (i - from)) as nat),
                None => None,
            }),
        decreases s.len() - i,
    {
        let ghost rest = s@.subrange(i as int, s@.len() as int);
        if s[i] == c {
            return Some(i);
        }
        assert(rest.drop_first() =~= s@.subrange(i + 1, s@.len() as int));
        i = i + 1;
    }
    None
}

/// Whether the texts `a` and `b` are equal.
pub fn str_eq(a: &str, b: &str) -> (res: bool)
    ensures
        res == (a@ == b@),
{
    let ac = chars_of(a);
    let bc = chars_of(b);
    chars_eq(ac.as_slice(), bc.as_slice())
}

/// Whether `a` and `b` hold the same characters.
pub fn chars_eq(a: &[char], b: &[char]) -> (res: bool)
    ensures
        res == (a@ == b@),
{
    if a.len() != b.len() {
        return false;
    }
    let mut i: usize = 0;
    while i < a.len()
        invariant
            a@.len() == b@.len(),
            i <= a.len(),
            forall|j: int| 0 <= j < i ==> a@[j] == b@[j],
        decreases a.len() - i,
    {
        if a[i] != b[i] {
            return false;
        }
        i = i + 1;
    }
    assert(a@ =~= b@);
    true
}

/// The characters `s[from..to]`.
pub fn sub_chars(s: &[char], from: usize, to: usize) -> (v: Vec<char>)
    requires
        from <= to <= s.len(),
    ensures
        v@ == s@.subrange(from as int, to as int),
{
    let mut v: Vec<char> = Vec::new();
    let mut i: usize = from;
    while i < to
        invariant
            from <= i <= to <= s.len(),
            v@ == s@.subrange(from as int, i as int),
        decreases to - i,
    {
        v.push(s[i]);
        assert(v@ =~= s@.subrange(from as int, i + 1));
        i = i + 1;
    }
    v
}

/// `s` split at its first `c`: the part before it, and the part after it if
/// `c` occurs.
pub open spec fn split_first(s: Seq<char>, c: char) -> (Seq<char>, Option<Seq<char>>) {
    match find_char(s, c) {
        Some(i) => (s.take(i as int), Some(s.skip(i as int + 1))),
        None => (s, None),
    }
}

/// Whether `s` holds exactly the characters of `w`.
pub fn is_word(s: &[char], w: &str) -> (res: bool)
    ensures
        res == (s@ == w@),
{
    let word = chars_of(w);
    chars_eq(s, word.as_slice())
}

/// Whether `s` equals `w` when ASCII letters are compared without case.
pub fn is_word_ignore_ascii_case(s: &[char], w: &str) -> (res: bool)
    ensures
        res == eq_ignore_ascii_case(s@, w@),
{
    let word = chars_of(w);
    chars_eq_ignore_ascii_case(s, word.as_slice())
}

/// `s` without its leading `prefix`, when it has one.
pub fn strip_prefix(s: &[char], prefix: &str) -> (res: Option<Vec<char>>)
    ensures
        match res {
            Some(rest) => has_prefix(s@, prefix@) && rest@ == s@.skip(prefix@.len() as int),
            None => !has_prefix(s@, prefix@),
        },
{
    let p = chars_of(prefix);
    if starts_with(s, p.as_slice()) {
        let rest = sub_chars(s, p.len(), s.len());
        Some(rest)
    } else {
        None
    }
}

/// The parts of `s` between the occurrences of `c`, as `str::split` gives
/// them: always at least one, empty parts kept.
pub open spec fn split_all(s: Seq<char>, c: char) -> Seq<Seq<char>>
    decreases s.len(),
{
    match find_char(s, c) {
        Some(i) => {
            proof {
                lemma_find_char(s, c);
            }
            seq![s.take(i as int)] + split_all(s.skip(i as int + 1), c)
        },
        None => seq![s],
    }
}

/// The texts of a sequence of character vectors.
pub open spec fn char_seqs(v: Seq<Vec<char>>) -> Seq<Seq<char>> {
    v.map_values(|x: Vec<char>| x@)
}

/// Pushing a vector pushes its text.
pub proof fn lemma_char_seqs_push(v: Seq<Vec<char>>, x: Vec<char>)
    ensures
        char_seqs(v.push(x)) == char_seqs(v).push(x@),
{
    assert(char_seqs(v.push(x)) =~= char_seqs(v).push(x@));
}

/// The parts of `s` between the occurrences of `c`.
pub fn split_chars(s: &[char], c: char) -> (parts: Vec<Vec<char>>)
    ensures
        char_seqs(parts@) == split_all(s@, c),
{
    let mut parts: Vec<Vec<char>> = Vec::new();
    let mut pos: usize = 0;
    assert(s@.subrange(0, s@.len() as int) =~= s@);
    assert(char_seqs(parts@) =~= Seq::<Seq<char>>::empty());
    assert(Seq::<Seq<char>>::empty() + split_all(s@, c) =~= split_all(s@, c));
    loop
        invariant
            pos <= s.len(),
            char_seqs(parts@) + split_all(s@.subrange(pos as int, s@.len() as int), c) == split_all(s@, c),
        decreases s.len() - pos,
    {
        let ghost rest = s@.subrange(pos as int, s@.len() as int);
        let ghost before = char_seqs(parts@);
        proof {
            lemma_find_char(rest, c);
        }
        match find_char_at(s, pos, c) {
            Some(i) => {
                let part = sub_chars(s, pos, i);
                assert(part@ =~= rest.take((i - pos) as int));
                assert(rest.skip((i - pos) as int + 1) =~= s@.subrange(i + 1, s@.len() as int));
                parts.push(part);
                assert(char_seqs(parts@) =~= before.push(part@));
                assert(split_all(rest, c) == seq![part@] + split_all(rest.skip((i - pos) as int + 1), c));
                proof {
                    vstd::seq_lib::lemma_concat_associative(before, seq![part@], split_all(rest.skip((i - pos) as int + 1), c));
                }
                assert(before + seq![part@] =~= before.push(part@));
                pos = i + 1;
            },
            None => {
                let part = sub_chars(s, pos, s.len());
                assert(part@ =~= rest);
                parts.push(part);
                assert(char_seqs(parts@) =~= before.push(part@));
                assert(split_all(rest, c) == seq![rest]);
                assert(before + seq![rest] =~= before.push(part@));
                return parts;
            },
        }
    }
}

/// Whether `c` is `2` or `3`, the digits a Python major version starts with.
pub open spec fn is_major_digit(c: char) -> bool {
    c == '2' || c == '3'
}

/// The index of the first `2` or `3` in `s`, if any.
pub open spec fn find_major_digit(s: Seq<char>) -> Option<nat>
    decreases s.len(),
{
    if s.len() == 0 {
        None
    } else if is_major_digit(s[0]) {
        Some(0)
    } else {
        match find_major_digit(s.drop_first()) {
            Some(i) => Some(i + 1),
            None => None,
        }
    }
}

/// Facts about `find_major_digit`: the index it gives is within `s`.
pub proof fn lemma_find_major_digit(s: Seq<char>)
    ensures
        match find_major_digit(s) {
            Some(i) => i < s.len(),
            None => true,
        },
    decreases s.len(),
{
    if s.len() > 0 && !is_major_digit(s[0]) {
        lemma_find_major_digit(s.drop_first());
    }
}

/// The index of the first `2` or `3` in `s`.
pub fn find_major_digit_in(s: &[char]) -> (res: Option<usize>)
    ensures
        match res {
            Some(i) => find_major_digit(s@) == Some(i as nat) && i < s.len(),
            None => find_major_digit(s@) is None,
        },
{
    let mut i: usize = 0;
    assert(s@.subrange(0, s@.len() as int) =~= s@);
    while i < s.len()
        invariant
            i <= s.len(),
            find_major_digit(s@) == (match find_major_digit(s@.subrange(i as int, s@.len() as int)) {
                Some(k) => Some((k + i) as nat),
                None => None,
            }),
        decreases s.len() - i,
    {
        let ghost rest = s@.subrange(i as int, s@.len() as int);
        if s[i] == '2' || s[i] == '3' {
            return Some(i);
        }
        assert(rest.drop_first() =~= s@.subrange(i + 1, s@.len() as int));
        i = i + 1;
    }
    assert(s@.subrange(i as int, s@.len() as int) =~= Seq::<char>::empty());
    None
}

/// A decimal digit's character is an ASCII digit with that value.
pub proof fn lemma_digit_char(d: nat)
    requires
        d < 10,
    ensures
        is_digit(digit_char(d)),
        digit_value(digit_char(d)) == d,
        digit_char(d) != '+',
{
    assert(((d + '0' as nat) as u32) as char as int == d + 48);
}

/// The decimal rendering of `n` is a non-empty run of digits whose value is
/// `n`.
pub proof fn lemma_dec(n: nat)
    ensures
        dec(n).len() > 0,
        all_digits(dec(n)),
        digits_value(dec(n)) == n,
        dec(n)[0] != '+',
    decreases n,
{
    if n < 10 {
        lemma_digit_char(n);
        assert(dec(n).drop_last() =~= Seq::<char>::empty());
        assert(digits_value(dec(n).drop_last()) == 0);
        assert(dec(n).last() == digit_char(n));
        assert(digits_value(dec(n)) == digits_value(dec(n).drop_last()) * 10 + digit_value(dec(n).last()));
    } else {
        lemma_dec(n / 10);
        lemma_digit_char(n % 10);
        let s = dec(n);
        assert(s.drop_last() =~= dec(n / 10));
        assert(s[0] == dec(n / 10)[0]);
        assert forall|i: int| 0 <= i < s.len() implies is_digit(#[trigger] s[i]) by {
            if i < s.len() - 1 {
                assert(s[i] == dec(n / 10)[i]);
            }
        }
        assert(s.last() == digit_char(n % 10));
        assert(digits_value(s) == digits_value(dec(n / 10)) * 10 + digit_value(s.last()));
        assert((n / 10) * 10 + n % 10 == n) by (nonlinear_arith);
    }
}

/// `str::parse` reads back the decimal rendering of a number that fits.
pub proof fn lemma_parse_dec(n: nat, max: nat)
    requires
        n <= max,
    ensures
        spec_parse_uint(dec(n), max) == Some(n),
{
    lemma_dec(n);
}

/// The digits at the start of `dec(n) + rest`, when `rest` does not start
/// with a digit, are those of `dec(n)`.
pub proof fn lemma_digit_run_dec(n: nat, rest: Seq<char>)
    requires
        rest.len() == 0 || !is_digit(rest[0]),
    ensures
        digit_run(dec(n) + rest) == dec(n).len(),
        (dec(n) + rest).take(dec(n).len() as int) == dec(n),
        (dec(n) + rest).skip(dec(n).len() as int) == rest,
{
    lemma_dec(n);
    lemma_digit_run_all(dec(n), rest);
    assert((dec(n) + rest).take(dec(n).len() as int) =~= dec(n));
    assert((dec(n) + rest).skip(dec(n).len() as int) =~= rest);
}

/// The digit run of digits followed by a non-digit is the digits.
pub proof fn lemma_digit_run_all(d: Seq<char>, rest: Seq<char>)
    requires
        all_digits(d),
        rest.len() == 0 || !is_digit(rest[0]),
    ensures
        digit_run(d + rest) == d.len(),
    decreases d.len(),
{
    if d.len() == 0 {
        assert(d + rest =~= rest);
    } else {
        assert((d + rest).drop_first() =~= d.drop_first() + rest);
        assert(is_digit(d[0]));
        lemma_digit_run_all(d.drop_first(), rest);
    }
}

/// Whether a character is white space as Unicode's `White_Space` property
/// (and `char::is_whitespace`) has it.
pub open spec fn is_white_space(c: char) -> bool {
    let u = c as u32;
    (0x9 <= u <= 0xd) || u == 0x20 || u == 0x85 || u == 0xa0 || u == 0x1680 || (0x2000 <= u <= 0x200a) || u
        == 0x2028 || u == 0x2029 || u == 0x202f || u == 0x205f || u == 0x3000
}

fn is_white_space_exec(c: char) -> (res: bool)
    ensures
        res == is_white_space(c),
{
    let u = c as u32;
    (0x9 <= u && u <= 0xd) || u == 0x20 || u == 0x85 || u == 0xa0 || u == 0x1680 || (0x2000 <= u && u <= 0x200a)
        || u == 0x2028 || u == 0x2029 || u == 0x202f || u == 0x205f || u == 0x3000
}

/// The number of white space characters `s` begins with.
pub open spec fn leading_ws(s: Seq<char>) -> nat
    decreases s.len(),
{
    if s.len() > 0 && is_white_space(s[0]) {
        1 + leading_ws(s.drop_first())
    } else {
        0
    }
}

/// The number of white space characters `s` ends with.
pub open spec fn trailing_ws(s: Seq<char>) -> nat
    decreases s.len(),
{
    if s.len() > 0 && is_white_space(s.last()) {
        1 + trailing_ws(s.drop_last())
    } else {
        0
    }
}

/// `s` without its leading and trailing white space, as `str::trim` gives
/// it.
pub open spec fn spec_trim(s: Seq<char>) -> Seq<char> {
    let t = s.skip(leading_ws(s) as int);
    t.take(t.len() - trailing_ws(t))
}

proof fn lemma_leading_ws(s: Seq<char>, k: nat)
    requires
        k <= s.len(),
        forall|j: int| 0 <= j < k ==> is_white_space(#[trigger] s[j]),
    ensures
        leading_ws(s) == k + leading_ws(s.skip(k as int)),
        leading_ws(s) <= s.len(),
    decreases k,
{
    lemma_leading_ws_bound(s);
    if k > 0 {
        assert(s.drop_first().skip(k - 1) =~= s.skip(k as int));
        assert forall|j: int| 0 <= j < k - 1 implies is_white_space(#[trigger] s.drop_first()[j]) by {
            assert(s.drop_first()[j] == s[j + 1]);
        }
        lemma_leading_ws(s.drop_first(), (k - 1) as nat);
        assert(is_white_space(s[0]));
    } else {
        assert(s.skip(0) =~= s);
    }
}

proof fn lemma_leading_ws_bound(s: Seq<char>)
    ensures
        leading_ws(s) <= s.len(),
    decreases s.len(),
{
    if s.len() > 0 {
        lemma_leading_ws_bound(s.drop_first());
    }
}

proof fn lemma_trailing_ws(s: Seq<char>, k: nat)
    requires
        k <= s.len(),
        forall|j: int| s.len() - k <= j < s.len() ==> is_white_space(#[trigger] s[j]),
    ensures
        trailing_ws(s) == k + trailing_ws(s.take(s.len() - k)),
        trailing_ws(s) <= s.len(),
    decreases k,
{
    lemma_trailing_ws_bound(s);
    if k > 0 {
        assert(s.drop_last().take(s.drop_last().len() - (k - 1)) =~= s.take(s.len() - k));
        assert forall|j: int| s.drop_last().len() - (k - 1) <= j < s.drop_last().len() implies is_white_space(
            #[trigger] s.drop_last()[j],
        ) by {
            assert(s.drop_last()[j] == s[j]);
        }
        lemma_trailing_ws(s.drop_last(), (k - 1) as nat);
        assert(is_white_space(s[s.len() - 1]));
    } else {
        assert(s.take(s.len() as int) =~= s);
    }
}

proof fn lemma_trailing_ws_bound(s: Seq<char>)
    ensures
        trailing_ws(s) <= s.len(),
    decreases s.len(),
{
    if s.len() > 0 {
        lemma_trailing_ws_bound(s.drop_last());
    }
}

/// `s` without its leading and trailing white space.
pub fn trim(s: &[char]) -> (t: Vec<char>)
    ensures
        t@ == spec_trim(s@),
{
    let mut a: usize = 0;
    while a < s.len() && is_white_space_exec(s[a])
        invariant
            a <= s@.len(),
            forall|j: int| 0 <= j < a ==> is_white_space(#[trigger] s@[j]),
        decreases s@.len() - a,
    {
        a = a + 1;
    }
    proof {
        lemma_leading_ws(s@, a as nat);
        if a < s@.len() {
            assert(!is_white_space(s@.skip(a as int)[0]));
        }
        assert(leading_ws(s@) == a);
    }
    let ghost t = s@.skip(a as int);
    let mut b: usize = s.len();
    while b > a && is_white_space_exec(s[b - 1])
        invariant
            a <= b <= s@.len(),
            t == s@.skip(a as int),
            forall|j: int| b <= j < s@.len() ==> is_white_space(#[trigger] s@[j]),
        decreases b - a,
    {
        b = b - 1;
    }
    proof {
        let k = (s@.len() - b) as nat;
        assert forall|j: int| t.len() - k <= j < t.len() implies is_white_space(#[trigger] t[j]) by {
            assert(t[j] == s@[j + a]);
        }
        lemma_trailing_ws(t, k);
        assert(t.take(t.len() - k) =~= s@.subrange(a as int, b as int));
        if b > a {
            assert(t.take(t.len() - k).last() == s@[b - 1]);
        }
        assert(trailing_ws(t) == k);
    }
    sub_chars(s, a, b)
}

} // verus!
