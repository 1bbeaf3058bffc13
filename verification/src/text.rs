//! Text handling for the command protocol: words, comparisons, numbers.

use vstd::prelude::*;

verus! {

/// Whether a character is white space in the sense of Unicode's
/// `White_Space` property (the set `char::is_whitespace` tests).
pub open spec fn is_ws(c: char) -> bool {
    ||| ('\u{9}' <= c <= '\u{d}')
    ||| c == ' '
    ||| c == '\u{85}'
    ||| c == '\u{a0}'
    ||| c == '\u{1680}'
    ||| ('\u{2000}' <= c <= '\u{200a}')
    ||| c == '\u{2028}'
    ||| c == '\u{2029}'
    ||| c == '\u{202f}'
    ||| c == '\u{205f}'
    ||| c == '\u{3000}'
}

/// Whether a character is white space.
pub fn is_whitespace(c: char) -> (r: bool)
    ensures
        r == is_ws(c),
{
    ('\u{9}' <= c && c <= '\u{d}') || c == ' ' || c == '\u{85}' || c == '\u{a0}' || c == '\u{1680}'
        || ('\u{2000}' <= c && c <= '\u{200a}') || c == '\u{2028}' || c == '\u{2029}' || c
        == '\u{202f}' || c == '\u{205f}' || c == '\u{3000}'
}

/// The number of white-space characters at the start of `s`.
pub open spec fn ws_prefix_len(s: Seq<char>) -> nat
    decreases s.len(),
{
    if s.len() > 0 && is_ws(s[0]) {
        1 + ws_prefix_len(s.drop_first())
    } else {
        0
    }
}

/// The number of characters before the first white space of `s`.
pub open spec fn word_len(s: Seq<char>) -> nat
    decreases s.len(),
{
    if s.len() > 0 && !is_ws(s[0]) {
        1 + word_len(s.drop_first())
    } else {
        0
    }
}

pub proof fn lemma_word_len(s: Seq<char>)
    ensures
        word_len(s) <= s.len(),
        forall|i: int| 0 <= i < word_len(s) ==> !is_ws(#[trigger] s[i]),
        word_len(s) < s.len() ==> is_ws(s[word_len(s) as int]),
    decreases s.len(),
{
    if s.len() > 0 && !is_ws(s[0]) {
        lemma_word_len(s.drop_first());
        assert forall|i: int| 0 <= i < word_len(s) implies !is_ws(#[trigger] s[i]) by {
            if i > 0 {
                assert(s[i] == s.drop_first()[i - 1]);
            }
        }
        if word_len(s) < s.len() {
            assert(s[word_len(s) as int] == s.drop_first()[word_len(s.drop_first()) as int]);
        }
    }
}

pub proof fn lemma_ws_prefix_len(s: Seq<char>)
    ensures
        ws_prefix_len(s) <= s.len(),
    decreases s.len(),
{
    if s.len() > 0 && is_ws(s[0]) {
        lemma_ws_prefix_len(s.drop_first());
    }
}

/// The words of `s`: the longest runs of characters that are not white space,
/// in order.
pub open spec fn words(s: Seq<char>) -> Seq<Seq<char>>
    decreases s.len(),
{
    let t = s.skip(ws_prefix_len(s) as int);
    if ws_prefix_len(s) > s.len() || t.len() == 0 {
        Seq::empty()
    } else if word_len(t) == 0 {
        Seq::empty()
    } else {
        proof {
            lemma_word_len(t);
        }
        seq![t.take(word_len(t) as int)] + words(t.skip(word_len(t) as int))
    }
}

/// A leading white-space character does not change the words.
pub proof fn lemma_words_skip_ws(s: Seq<char>)
    requires
        s.len() > 0,
        is_ws(s[0]),
    ensures
        words(s) == words(s.drop_first()),
{
    lemma_ws_prefix_len(s.drop_first());
    assert(s.skip(ws_prefix_len(s) as int) =~= s.drop_first().skip(
        ws_prefix_len(s.drop_first()) as int,
    ));
}

/// A string that starts with a word starts its words with that word.
pub proof fn lemma_words_word(s: Seq<char>)
    requires
        s.len() > 0,
        !is_ws(s[0]),
    ensures
        words(s) == seq![s.take(word_len(s) as int)] + words(s.skip(word_len(s) as int)),
{
    assert(ws_prefix_len(s) == 0);
    assert(s.skip(0) =~= s);
}

/// Whether no character of `s` is white space.
pub open spec fn no_ws(s: Seq<char>) -> bool {
    forall|i: int| 0 <= i < s.len() ==> !is_ws(#[trigger] s[i])
}

/// A run of characters that are not white space has itself as its only word.
pub proof fn lemma_words_of_word(a: Seq<char>)
    requires
        a.len() > 0,
        no_ws(a),
    ensures
        words(a) == seq![a],
{
    lemma_word_len(a);
    if word_len(a) < a.len() {
        assert(!is_ws(a[word_len(a) as int]));
    }
    lemma_words_word(a);
    assert(a.take(a.len() as int) =~= a);
    assert(a.skip(a.len() as int) =~= Seq::<char>::empty());
    assert(ws_prefix_len(Seq::<char>::empty()) == 0);
    assert(words(Seq::<char>::empty()) =~= Seq::<Seq<char>>::empty());
    assert(seq![a] + Seq::<Seq<char>>::empty() =~= seq![a]);
}

/// Two words with a space between them are those two words.
pub proof fn lemma_words_of_two(a: Seq<char>, b: Seq<char>)
    requires
        a.len() > 0,
        b.len() > 0,
        no_ws(a),
        no_ws(b),
    ensures
        words(a + seq![' '] + b) == seq![a, b],
{
    let s = a + seq![' '] + b;
    lemma_word_len(s);
    assert forall|i: int| 0 <= i < a.len() implies !is_ws(#[trigger] s[i]) by {
        assert(s[i] == a[i]);
    }
    assert(s[a.len() as int] == ' ');
    if word_len(s) < a.len() {
        assert(!is_ws(s[word_len(s) as int]));
    }
    assert(word_len(s) == a.len());
    lemma_words_word(s);
    assert(s.take(a.len() as int) =~= a);
    let t = s.skip(a.len() as int);
    assert(t =~= seq![' '] + b);
    lemma_words_skip_ws(t);
    assert(t.drop_first() =~= b);
    lemma_words_of_word(b);
    assert(seq![a] + seq![b] =~= seq![a, b]);
}

/// The characters of a string.
pub fn chars_of(s: &str) -> (r: Vec<char>)
    ensures
        r@ == s@,
{
    let n = s.unicode_len();
    let mut out: Vec<char> = Vec::new();
    let mut i: usize = 0;
    while i < n
        invariant
            n == s@.len(),
            i <= n,
            out@ == s@.take(i as int),
        decreases n - i,
    {
        out.push(s.get_char(i));
        proof {
            assert(s@.take(i + 1) =~= s@.take(i as int).push(s@[i as int]));
        }
        i = i + 1;
    }
    proof {
        assert(s@.take(n as int) =~= s@);
    }
    out
}

/// Whether two strings hold the same characters.
pub fn str_eq(a: &str, b: &str) -> (r: bool)
    ensures
        r == (a@ == b@),
{
    let n = a.unicode_len();
    if n != b.unicode_len() {
        return false;
    }
    let mut i: usize = 0;
    while i < n
        invariant
            n == a@.len(),
            n == b@.len(),
            i <= n,
            forall|j: int| 0 <= j < i ==> a@[j] == b@[j],
        decreases n - i,
    {
        if a.get_char(i) != b.get_char(i) {
            return false;
        }
        i = i + 1;
    }
    proof {
        assert(a@ =~= b@);
    }
    true
}

/// Whether `needle` occurs in `hay` as a run of consecutive characters.
/// The empty string occurs in every string.
pub open spec fn occurs_in(hay: Seq<char>, needle: Seq<char>) -> bool {
    exists|i: int|
        0 <= i && i + needle.len() <= hay.len() && #[trigger] hay.subrange(i, i + needle.len())
            == needle
}

/// Whether `needle` occurs in `hay`.
pub fn str_contains(hay: &str, needle: &str) -> (r: bool)
    ensures
        r == occurs_in(hay@, needle@),
{
    let h = chars_of(hay);
    let n = chars_of(needle);
    if n.len() > h.len() {
        return false;
    }
    let last = h.len() - n.len();
    proof {
        assert(h@.len() <= usize::MAX);
    }
    let mut i: usize = 0;
    while i <= last
        invariant
            h@ == hay@,
            n@ == needle@,
            n@.len() <= h@.len(),
            h@.len() <= usize::MAX,
            last == h@.len() - n@.len(),
            i <= last + 1,
            forall|k: int| 0 <= k < i ==> #[trigger] h@.subrange(k, k + n@.len()) != n@,
        decreases last + 1 - i,
    {
        let mut j: usize = 0;
        let mut same = true;
        while j < n.len()
            invariant
                h@ == hay@,
                n@ == needle@,
                n@.len() <= h@.len(),
                h@.len() <= usize::MAX,
                i <= last,
                last == h@.len() - n@.len(),
                j <= n@.len(),
                same == (forall|m: int| 0 <= m < j ==> h@[i + m] == n@[m]),
            decreases n@.len() - j,
        {
            if h[i + j] != n[j] {
                same = false;
            }
            j = j + 1;
        }
        if same {
            proof {
                assert(h@.subrange(i as int, i + n@.len()) =~= n@);
            }
            return true;
        }
        proof {
            assert(h@.subrange(i as int, i + n@.len()) != n@) by {
                let m = choose|m: int| 0 <= m < n@.len() && h@[i + m] != n@[m];
                assert(h@.subrange(i as int, i + n@.len())[m] == h@[i + m]);
            }
        }
        if i == last {
            proof {
                assert forall|k: int|
                    0 <= k && k + needle@.len() <= hay@.len() implies #[trigger] hay@.subrange(
                    k,
                    k + needle@.len(),
                ) != needle@ by {
                    assert(k < i + 1);
                }
            }
            return false;
        }
        i = i + 1;
    }
    false
}

/// The words of a string, in order.
pub fn split_words(s: &str) -> (r: Vec<&str>)
    ensures
        r@.len() == words(s@).len(),
        forall|i: int| 0 <= i < r@.len() ==> #[trigger] r@[i]@ == words(s@)[i],
{
    let c = chars_of(s);
    let n = c.len();
    let mut out: Vec<&str> = Vec::new();
    let ghost mut done: Seq<Seq<char>> = Seq::empty();
    let mut i: usize = 0;
    proof {
        assert(c@.skip(0) =~= c@);
        assert(done + words(c@) =~= words(c@));
    }
    while i < n
        invariant
            c@ == s@,
            n == c@.len(),
            i <= n,
            out@.len() == done.len(),
            forall|k: int| 0 <= k < out@.len() ==> #[trigger] out@[k]@ == done[k],
            done + words(c@.skip(i as int)) == words(c@),
        decreases n - i,
    {
        if is_whitespace(c[i]) {
            proof {
                lemma_words_skip_ws(c@.skip(i as int));
                assert(c@.skip(i as int).drop_first() =~= c@.skip(i + 1));
            }
            i = i + 1;
        } else {
            let start = i;
            while i < n && !is_whitespace(c[i])
                invariant
                    c@ == s@,
                    n == c@.len(),
                    start <= i <= n,
                    forall|k: int| start <= k < i ==> !is_ws(#[trigger] c@[k]),
                decreases n - i,
            {
                i = i + 1;
            }
            let w = s.substring_char(start, i);
            proof {
                let t = c@.skip(start as int);
                lemma_words_word(t);
                lemma_word_len(t);
                assert(word_len(t) == i - start) by {
                    if word_len(t) < i - start {
                        assert(!is_ws(t[word_len(t) as int]) && t[word_len(t) as int] == c@[start + word_len(t)]);
                    }
                    if word_len(t) > i - start {
                        assert(t[i - start] == c@[i as int]);
                    }
                }
                assert(t.take(word_len(t) as int) =~= s@.subrange(start as int, i as int));
                assert(t.skip(word_len(t) as int) =~= c@.skip(i as int));
                assert(done.push(w@) + words(c@.skip(i as int)) =~= done + words(t));
                done = done.push(w@);
            }
            out.push(w);
        }
    }
    proof {
        assert(c@.skip(n as int) =~= Seq::<char>::empty());
        assert(done =~= words(c@));
    }
    out
}

/// Whether a character is an ASCII decimal digit.
pub open spec fn is_digit(c: char) -> bool {
    '0' <= c <= '9'
}

/// The value of a decimal digit.
pub open spec fn digit_value(c: char) -> nat {
    ((c as int) - ('0' as int)) as nat
}

/// The value of a run of decimal digits, most significant first.
pub open spec fn digits_value(s: Seq<char>) -> nat
    decreases s.len(),
{
    if s.len() == 0 {
        0
    } else {
        digits_value(s.drop_last()) * 10 + digit_value(s.last())
    }
}

/// `s` without a leading `+`.
pub open spec fn unsigned_digits(s: Seq<char>) -> Seq<char> {
    if s.len() > 0 && s[0] == '+' {
        s.drop_first()
    } else {
        s
    }
}

/// Whether every character of `s` is a decimal digit.
pub open spec fn all_digits(s: Seq<char>) -> bool {
    forall|i: int| 0 <= i < s.len() ==> is_digit(#[trigger] s[i])
}

/// What reading `s` as an unsigned integer no larger than `max` gives, as
/// `from_str` reads unsigned integers: an optional `+`, then one or more
/// decimal digits, with a value that is at most `max`.
pub open spec fn parse_unsigned(s: Seq<char>, max: int) -> Option<nat> {
    let d = unsigned_digits(s);
    if d.len() > 0 && all_digits(d) && digits_value(d) <= max {
        Some(digits_value(d))
    } else {
        None
    }
}

/// What `usize::from_str` gives for `s`.
pub open spec fn parse_usize_spec(s: Seq<char>) -> Option<nat> {
    parse_unsigned(s, usize::MAX as int)
}

/// What `u64::from_str` gives for `s`.
pub open spec fn parse_u64_spec(s: Seq<char>) -> Option<nat> {
    parse_unsigned(s, u64::MAX as int)
}

/// Reads an unsigned machine-size integer written in decimal.
pub fn parse_usize(s: &str) -> (r: Option<usize>)
    ensures
        r matches Some(v) ==> parse_usize_spec(s@) == Some(v as nat),
        r is None ==> parse_usize_spec(s@) is None,
{
    match parse_u64(s) {
        Some(v) => if v <= usize::MAX as u64 {
            Some(v as usize)
        } else {
            None
        },
        None => None,
    }
}

/// Reads an unsigned 64-bit integer written in decimal.
pub fn parse_u64(s: &str) -> (r: Option<u64>)
    ensures
        r matches Some(v) ==> parse_u64_spec(s@) == Some(v as nat),
        r is None ==> parse_u64_spec(s@) is None,
{
    let c = chars_of(s);
    let start: usize = if c.len() > 0 && c[0] == '+' {
        1
    } else {
        0
    };
    let ghost d = unsigned_digits(s@);
    proof {
        assert(d =~= c@.skip(start as int));
    }
    if start >= c.len() {
        return None;
    }
    let mut value: u64 = 0;
    let mut overflowed = false;
    let mut i: usize = start;
    while i < c.len()
        invariant
            c@ == s@,
            start <= i <= c@.len(),
            d =~= c@.skip(start as int),
            d == unsigned_digits(s@),
            forall|k: int| start <= k < i ==> is_digit(#[trigger] c@[k]),
            !overflowed ==> value == digits_value(c@.subrange(start as int, i as int)),
            overflowed ==> digits_value(c@.subrange(start as int, i as int)) > u64::MAX,
        decreases c@.len() - i,
    {
        let ch = c[i];
        if ch < '0' || ch > '9' {
            proof {
                assert(d[i - start] == ch);
                assert(!is_digit(d[i - start]));
            }
            return None;
        }
        let dv: u64 = (ch as u32 - '0' as u32) as u64;
        proof {
            let p = c@.subrange(start as int, i + 1);
            assert(p.drop_last() =~= c@.subrange(start as int, i as int));
            assert(p.last() == ch);
            assert(dv == digit_value(ch));
        }
        if !overflowed {
            match value.checked_mul(10) {
                None => {
                    overflowed = true;
                },
                Some(m) => match m.checked_add(dv) {
                    None => {
                        overflowed = true;
                    },
                    Some(v) => {
                        value = v;
                    },
                },
            }
        }
        i = i + 1;
    }
    proof {
        assert(c@.subrange(start as int, c@.len() as int) =~= d);
    }
    if overflowed {
        None
    } else {
        Some(value)
    }
}

/// The character of a decimal digit.
pub open spec fn digit_char(d: nat) -> char {
    (('0' as int) + d) as char
}

/// The decimal numeral of `n`: its digits, most significant first, with no
/// sign and no leading zeros.
pub open spec fn decimal(n: nat) -> Seq<char>
    decreases n,
{
    if n < 10 {
        seq![digit_char(n)]
    } else {
        decimal(n / 10).push(digit_char(n % 10))
    }
}

/// The text of a digit.
pub(crate) fn digit_text(d: u32) -> (r: &'static str)
    requires
        d < 10,
    ensures
        r@ == seq![digit_char(d as nat)],
{
    proof {
        reveal_strlit("0");
        reveal_strlit("1");
        reveal_strlit("2");
        reveal_strlit("3");
        reveal_strlit("4");
        reveal_strlit("5");
        reveal_strlit("6");
        reveal_strlit("7");
        reveal_strlit("8");
        reveal_strlit("9");
    }
    match d {
        0 => "0",
        1 => "1",
        2 => "2",
        3 => "3",
        4 => "4",
        5 => "5",
        6 => "6",
        7 => "7",
        8 => "8",
        _ => "9",
    }
}

/// Appends the decimal numeral of `n`.
fn append_decimal(out: &mut String, n: u64)
    ensures
        final(out)@ == old(out)@ + decimal(n as nat),
    decreases n,
{
    let ghost start = out@;
    if n >= 10 {
        append_decimal(out, n / 10);
    }
    let ghost before = out@;
    out.append(digit_text((n % 10) as u32));
    proof {
        if n >= 10 {
            assert(out@ =~= start + decimal((n / 10) as nat).push(digit_char((n % 10) as nat)));
        } else {
            assert(out@ =~= start + seq![digit_char(n as nat)]);
        }
    }
}

/// Writes a number in decimal, as `u64`'s `Display` implementation does: its
/// digits, most significant first, with no sign, padding or separators.
pub(crate) fn decimal_string(n: u64) -> (r: String)
    ensures
        r@ == decimal(n as nat),
{
    let mut out = String::new();
    append_decimal(&mut out, n);
    proof {
        assert(out@ =~= decimal(n as nat));
    }
    out
}

/// `"true"` or `"false"`.
pub open spec fn bool_text(b: bool) -> Seq<char> {
    if b {
        "true"@
    } else {
        "false"@
    }
}

/// The text of a boolean, as `bool`'s `Display` writes it.
pub fn bool_string(b: bool) -> (r: String)
    ensures
        r@ == bool_text(b),
{
    if b {
        String::from_str("true")
    } else {
        String::from_str("false")
    }
}


/// `s` without a leading sign.
pub open spec fn unsigned_part(s: Seq<char>) -> Seq<char> {
    if s.len() > 0 && (s[0] == '+' || s[0] == '-') {
        s.drop_first()
    } else {
        s
    }
}

/// The lower-case form of an ASCII letter; other characters stay.
pub open spec fn ascii_lower(c: char) -> char {
    if 'A' <= c <= 'Z' {
        ((c as int) + 32) as char
    } else {
        c
    }
}

/// `s` with its ASCII letters in lower case.
pub open spec fn lowered(s: Seq<char>) -> Seq<char> {
    s.map_values(|c: char| ascii_lower(c))
}

/// Where the exponent marker (`e` or `E`) first occurs in `s`, or the length
/// of `s` when it does not.
pub open spec fn exponent_at(s: Seq<char>) -> nat
    decreases s.len(),
{
    if s.len() == 0 || s[0] == 'e' || s[0] == 'E' {
        0
    } else {
        1 + exponent_at(s.drop_first())
    }
}

/// Whether `m` is the digits of a decimal number: digits with at most one
/// point, and at least one digit.
pub open spec fn is_mantissa(m: Seq<char>) -> bool {
    &&& forall|i: int| 0 <= i < m.len() ==> is_digit(#[trigger] m[i]) || m[i] == '.'
    &&& forall|i: int, j: int| 0 <= i < m.len() && 0 <= j < m.len() && m[i] == '.' && m[j] == '.' ==> i == j
    &&& exists|i: int| 0 <= i < m.len() && is_digit(#[trigger] m[i])
}

/// Whether `x` is the digits of an exponent: an optional sign, then one or
/// more decimal digits.
pub open spec fn is_exponent(x: Seq<char>) -> bool {
    unsigned_part(x).len() > 0 && all_digits(unsigned_part(x))
}

/// Whether `s` reads as a 64-bit floating-point number, as `f64::from_str`
/// reads it: an optional sign, then `inf`, `infinity` or `nan` in any case,
/// or a decimal number (digits with at most one point, at least one digit)
/// with an optional exponent (`e` or `E`, an optional sign, digits).
pub open spec fn is_float_text(s: Seq<char>) -> bool {
    let t = unsigned_part(s);
    let k = exponent_at(t);
    ||| lowered(t) == "inf"@
    ||| lowered(t) == "infinity"@
    ||| lowered(t) == "nan"@
    ||| (is_mantissa(t.take(k as int)) && (k == t.len() || is_exponent(t.skip(k as int + 1))))
}

proof fn lemma_exponent_at(s: Seq<char>)
    ensures
        exponent_at(s) <= s.len(),
        forall|i: int| 0 <= i < exponent_at(s) ==> s[i] != 'e' && s[i] != 'E',
        exponent_at(s) < s.len() ==> (s[exponent_at(s) as int] == 'e' || s[exponent_at(s) as int] == 'E'),
    decreases s.len(),
{
    if !(s.len() == 0 || s[0] == 'e' || s[0] == 'E') {
        lemma_exponent_at(s.drop_first());
        assert forall|i: int| 0 <= i < exponent_at(s) implies s[i] != 'e' && s[i] != 'E' by {
            if i > 0 {
                assert(s[i] == s.drop_first()[i - 1]);
            }
        }
        if exponent_at(s) < s.len() {
            assert(s[exponent_at(s) as int] == s.drop_first()[exponent_at(s.drop_first()) as int]);
        }
    }
}

/// Whether the characters of `c` from `start` on, with ASCII letters in
/// lower case, spell `lit`.
fn lower_equals(c: &Vec<char>, start: usize, lit: &str) -> (r: bool)
    requires
        start <= c@.len(),
    ensures
        r == (lowered(c@.skip(start as int)) == lit@),
{
    let n = lit.unicode_len();
    if c.len() - start != n {
        proof {
            assert(lowered(c@.skip(start as int)).len() != lit@.len());
        }
        return false;
    }
    let mut i: usize = 0;
    while i < n
        invariant
            start <= c@.len(),
            c@.len() <= usize::MAX,
            n == lit@.len(),
            c@.len() - start == n,
            i <= n,
            forall|j: int| 0 <= j < i ==> ascii_lower(#[trigger] c@[start + j]) == lit@[j],
        decreases n - i,
    {
        let ch = c[start + i];
        let lower = if 'A' <= ch && ch <= 'Z' {
            char_from_code(ch as u32 + 32)
        } else {
            ch
        };
        if lower != lit.get_char(i) {
            proof {
                assert(lowered(c@.skip(start as int))[i as int] == ascii_lower(c@[start + i]));
            }
            return false;
        }
        i = i + 1;
    }
    proof {
        assert(lowered(c@.skip(start as int)) =~= lit@) by {
            assert forall|j: int| 0 <= j < n implies lowered(c@.skip(start as int))[j] == lit@[j] by {
                assert(c@.skip(start as int)[j] == c@[start + j]);
            }
        }
    }
    true
}

/// The character with an ASCII letter's code.
fn char_from_code(code: u32) -> (r: char)
    requires
        97 <= code <= 122,
    ensures
        r == code as char,
{
    let mut out: char = 'a';
    let mut k: u32 = 97;
    while k < code
        invariant
            97 <= k <= code,
            code <= 122,
            out == k as char,
        decreases code - k,
    {
        out = next_lower_letter(out);
        k = k + 1;
    }
    out
}

/// The letter after a lower-case ASCII letter other than `z`.
fn next_lower_letter(c: char) -> (r: char)
    requires
        'a' <= c < 'z',
    ensures
        r == ((c as int) + 1) as char,
{
    match c {
        'a' => 'b',
        'b' => 'c',
        'c' => 'd',
        'd' => 'e',
        'e' => 'f',
        'f' => 'g',
        'g' => 'h',
        'h' => 'i',
        'i' => 'j',
        'j' => 'k',
        'k' => 'l',
        'l' => 'm',
        'm' => 'n',
        'n' => 'o',
        'o' => 'p',
        'p' => 'q',
        'q' => 'r',
        'r' => 's',
        's' => 't',
        't' => 'u',
        'u' => 'v',
        'v' => 'w',
        'w' => 'x',
        'x' => 'y',
        _ => 'z',
    }
}

/// Where the exponent marker first occurs in `c` from `start` on, or the
/// length of `c`.
fn find_exponent(c: &Vec<char>, start: usize) -> (r: usize)
    requires
        start <= c@.len(),
    ensures
        r == start + exponent_at(c@.skip(start as int)),
{
    let ghost t = c@.skip(start as int);
    let n = c.len();
    let mut k: usize = start;
    while k < n && c[k] != 'e' && c[k] != 'E'
        invariant
            start <= k <= n,
            n == c@.len(),
            forall|j: int| start <= j < k ==> c@[j] != 'e' && c@[j] != 'E',
        decreases n - k,
    {
        k = k + 1;
    }
    proof {
        lemma_exponent_at(t);
        if exponent_at(t) < k - start {
            assert(t[exponent_at(t) as int] == c@[start + exponent_at(t)]);
        }
        if exponent_at(t) > k - start {
            assert(t[k - start] == c@[k as int]);
        }
    }
    k
}

/// Whether the characters of `c` from `start` to `end` are the digits of a
/// decimal number.
fn mantissa_ok(c: &Vec<char>, start: usize, end: usize) -> (r: bool)
    requires
        start <= end <= c@.len(),
    ensures
        r == is_mantissa(c@.subrange(start as int, end as int)),
{
    let ghost m = c@.subrange(start as int, end as int);
    let mut dots: usize = 0;
    let mut digits: usize = 0;
    let mut dot_at: usize = 0;
    let mut i: usize = start;
    while i < end
        invariant
            start <= i <= end <= c@.len(),
            m == c@.subrange(start as int, end as int),
            forall|j: int| start <= j < i ==> is_digit(#[trigger] c@[j]) || c@[j] == '.',
            dots <= 1,
            dots == 0 ==> forall|j: int| start <= j < i ==> c@[j] != '.',
            dots == 1 ==> start <= dot_at < i && c@[dot_at as int] == '.' && forall|j: int|
                start <= j < i && c@[j] == '.' ==> j == dot_at,
            digits == 0 ==> forall|j: int| start <= j < i ==> !is_digit(#[trigger] c@[j]),
            digits > 0 ==> exists|j: int| start <= j < i && is_digit(#[trigger] c@[j]),
            digits <= i - start,
        decreases end - i,
    {
        let ch = c[i];
        if ch == '.' {
            if dots == 1 {
                proof {
                    assert(m[dot_at - start] == '.' && m[i - start] == '.');
                }
                return false;
            }
            dots = 1;
            dot_at = i;
        } else if '0' <= ch && ch <= '9' {
            digits = digits + 1;
        } else {
            proof {
                assert(m[i - start] == ch);
            }
            return false;
        }
        i = i + 1;
    }
    if digits == 0 {
        proof {
            assert forall|j: int| 0 <= j < m.len() implies !is_digit(#[trigger] m[j]) by {
                assert(m[j] == c@[start + j]);
            }
        }
        return false;
    }
    proof {
        assert forall|j: int| 0 <= j < m.len() implies is_digit(#[trigger] m[j]) || m[j] == '.' by {
            assert(m[j] == c@[start + j]);
        }
        assert forall|a: int, b: int|
            0 <= a < m.len() && 0 <= b < m.len() && m[a] == '.' && m[b] == '.' implies a == b by {
            assert(m[a] == c@[start + a] && m[b] == c@[start + b]);
        }
        let j = choose|j: int| start <= j < i && is_digit(#[trigger] c@[j]);
        assert(m[j - start] == c@[j]);
    }
    true
}

/// Whether the characters of `c` from `start` on are the digits of an
/// exponent.
fn exponent_ok(c: &Vec<char>, start: usize) -> (r: bool)
    requires
        start <= c@.len(),
    ensures
        r == is_exponent(c@.skip(start as int)),
{
    let ghost x = c@.skip(start as int);
    let n = c.len();
    let mut e: usize = start;
    if e < n && (c[e] == '+' || c[e] == '-') {
        e = e + 1;
    }
    proof {
        assert(unsigned_part(x) =~= c@.skip(e as int));
    }
    if e >= n {
        proof {
            assert(c@.skip(e as int).len() == 0);
        }
        return false;
    }
    let mut j: usize = e;
    while j < n
        invariant
            e <= j <= n,
            n == c@.len(),
            x == c@.skip(start as int),
            unsigned_part(x) =~= c@.skip(e as int),
            forall|q: int| e <= q < j ==> is_digit(#[trigger] c@[q]),
        decreases n - j,
    {
        if c[j] < '0' || c[j] > '9' {
            proof {
                assert(unsigned_part(x)[j - e] == c@[j as int]);
                assert(!is_digit(unsigned_part(x)[j - e]));
            }
            return false;
        }
        j = j + 1;
    }
    proof {
        assert forall|q: int| 0 <= q < unsigned_part(x).len() implies is_digit(#[trigger] unsigned_part(x)[q]) by {
            assert(unsigned_part(x)[q] == c@[e + q]);
        }
    }
    true
}

/// Whether a word reads as a 64-bit floating-point number (see
/// `is_float_text`).
pub fn is_float_word(s: &str) -> (r: bool)
    ensures
        r == is_float_text(s@),
{
    let c = chars_of(s);
    let start: usize = if c.len() > 0 && (c[0] == '+' || c[0] == '-') {
        1
    } else {
        0
    };
    let ghost t = unsigned_part(s@);
    proof {
        assert(t =~= c@.skip(start as int));
    }
    if lower_equals(&c, start, "inf") || lower_equals(&c, start, "infinity") || lower_equals(
        &c,
        start,
        "nan",
    ) {
        return true;
    }
    let k = find_exponent(&c, start);
    let ghost kk = exponent_at(t);
    proof {
        lemma_exponent_at(t);
        assert(t.take(kk as int) =~= c@.subrange(start as int, k as int));
    }
    if !mantissa_ok(&c, start, k) {
        return false;
    }
    if k == c.len() {
        return true;
    }
    proof {
        assert(t.skip(kk as int + 1) =~= c@.skip(k + 1));
    }
    exponent_ok(&c, k + 1)
}


/// Where the first point of `m` stands, or the length of `m` when it has
/// none: the number of digits before the point of a mantissa.
pub open spec fn dot_at(m: Seq<char>) -> nat
    decreases m.len(),
{
    if m.len() == 0 || m[0] == '.' {
        0
    } else {
        1 + dot_at(m.drop_first())
    }
}

proof fn lemma_dot_at(s: Seq<char>)
    ensures
        dot_at(s) <= s.len(),
        forall|i: int| 0 <= i < dot_at(s) ==> s[i] != '.',
        dot_at(s) < s.len() ==> s[dot_at(s) as int] == '.',
    decreases s.len(),
{
    if !(s.len() == 0 || s[0] == '.') {
        lemma_dot_at(s.drop_first());
        assert forall|i: int| 0 <= i < dot_at(s) implies s[i] != '.' by {
            if i > 0 {
                assert(s[i] == s.drop_first()[i - 1]);
            }
        }
        if dot_at(s) < s.len() {
            assert(s[dot_at(s) as int] == s.drop_first()[dot_at(s.drop_first()) as int]);
        }
    }
}

/// The digits of a mantissa, with its point taken out.
pub open spec fn mantissa_digits(m: Seq<char>) -> Seq<char> {
    let p = dot_at(m);
    if p < m.len() {
        m.take(p as int) + m.skip(p as int + 1)
    } else {
        m
    }
}

/// The value of an exponent: its digits, negated after a minus sign.
pub open spec fn exponent_value(x: Seq<char>) -> int {
    if x.len() > 0 && x[0] == '-' {
        -(digits_value(unsigned_part(x)) as int)
    } else {
        digits_value(unsigned_part(x)) as int
    }
}

/// The value of the digit at `i`, or 0 outside the digits.
pub open spec fn digit_at(d: Seq<char>, i: int) -> int {
    if 0 <= i < d.len() {
        digit_value(d[i]) as int
    } else {
        0
    }
}

/// The thousandths, rounded toward zero, of the number whose digits are `d`
/// with the point after the first `q` of them (`q` may lie outside the
/// digits); 1000 when the number is one or more.
pub open spec fn magnitude_thousandths(d: Seq<char>, q: int) -> int {
    if exists|i: int| 0 <= i < d.len() && i < q && d[i] != '0' {
        1000
    } else {
        100 * digit_at(d, q) + 10 * digit_at(d, q + 1) + digit_at(d, q + 2)
    }
}

/// The value of a number written as `f64::from_str` reads it (see
/// `is_float_text`), in thousandths: rounded toward zero, and kept between
/// -1000 and 1000 (a magnitude of one or more, infinity included, counts
/// as 1000); not-a-number counts as 0.
pub open spec fn float_thousandths_spec(s: Seq<char>) -> int {
    let t = unsigned_part(s);
    let magnitude = if lowered(t) == "inf"@ || lowered(t) == "infinity"@ {
        1000
    } else if lowered(t) == "nan"@ {
        0
    } else {
        let k = exponent_at(t);
        let m = t.take(k as int);
        let q = dot_at(m) + if k < t.len() {
            exponent_value(t.skip(k as int + 1))
        } else {
            0
        };
        magnitude_thousandths(mantissa_digits(m), q)
    };
    if s.len() > 0 && s[0] == '-' {
        -magnitude
    } else {
        magnitude
    }
}

/// Moving the point further out than the digits changes nothing.
proof fn lemma_magnitude_clamp(d: Seq<char>, q: int)
    ensures
        magnitude_thousandths(d, q) == magnitude_thousandths(
            d,
            if q < -3 {
                -3
            } else if q > d.len() {
                d.len() as int
            } else {
                q
            },
        ),
{
}

/// Where the first point stands in `c` between `start` and `end`.
fn find_dot(c: &Vec<char>, start: usize, end: usize) -> (r: usize)
    requires
        start <= end <= c@.len(),
    ensures
        r == start + dot_at(c@.subrange(start as int, end as int)),
{
    let ghost m = c@.subrange(start as int, end as int);
    let mut k: usize = start;
    while k < end && c[k] != '.'
        invariant
            start <= k <= end,
            end <= c@.len(),
            forall|j: int| start <= j < k ==> c@[j] != '.',
        decreases end - k,
    {
        k = k + 1;
    }
    proof {
        lemma_dot_at(m);
        if dot_at(m) < k - start {
            assert(m[dot_at(m) as int] == c@[start + dot_at(m)]);
        }
        if dot_at(m) > k - start {
            assert(m[k - start] == c@[k as int]);
        }
    }
    k
}

/// The largest exponent magnitude tracked exactly; larger ones move the
/// point past any digits either way.
const EXPONENT_CAP: i128 = 0x4000_0000_0000_0000_0000;

/// The value of the exponent written from `start` on, with a magnitude of
/// at most `EXPONENT_CAP`.
fn exponent_saturated(c: &Vec<char>, start: usize) -> (r: i128)
    requires
        start <= c@.len(),
        is_exponent(c@.skip(start as int)),
    ensures
        r == (if exponent_value(c@.skip(start as int)) > EXPONENT_CAP {
            EXPONENT_CAP as int
        } else if exponent_value(c@.skip(start as int)) < -EXPONENT_CAP {
            -EXPONENT_CAP
        } else {
            exponent_value(c@.skip(start as int))
        }),
{
    let ghost x = c@.skip(start as int);
    let n = c.len();
    let negative = c[start] == '-';
    let e: usize = if c[start] == '+' || c[start] == '-' {
        start + 1
    } else {
        start
    };
    proof {
        assert(unsigned_part(x) =~= c@.skip(e as int));
    }
    let mut value: i128 = 0;
    let mut j: usize = e;
    while j < n
        invariant
            e <= j <= n,
            n == c@.len(),
            unsigned_part(x) =~= c@.skip(e as int),
            all_digits(unsigned_part(x)),
            0 <= value <= EXPONENT_CAP,
            value == (if digits_value(c@.subrange(e as int, j as int)) > EXPONENT_CAP {
                EXPONENT_CAP as int
            } else {
                digits_value(c@.subrange(e as int, j as int)) as int
            }),
        decreases n - j,
    {
        let ch = c[j];
        proof {
            assert(unsigned_part(x)[j - e] == ch);
            assert(is_digit(ch));
            let p = c@.subrange(e as int, j + 1);
            assert(p.drop_last() =~= c@.subrange(e as int, j as int));
            assert(p.last() == ch);
        }
        let dv: i128 = (ch as u32 - '0' as u32) as i128;
        if value < EXPONENT_CAP {
            let next = value * 10 + dv;
            value = if next > EXPONENT_CAP {
                EXPONENT_CAP
            } else {
                next
            };
        }
        j = j + 1;
    }
    proof {
        assert(c@.subrange(e as int, n as int) =~= unsigned_part(x));
    }
    if negative {
        -value
    } else {
        value
    }
}

/// The digits of the mantissa between `start` and `end`, the point taken out.
fn mantissa_digit_vec(c: &Vec<char>, start: usize, end: usize) -> (r: Vec<char>)
    requires
        start <= end <= c@.len(),
    ensures
        r@ == mantissa_digits(c@.subrange(start as int, end as int)),
{
    let ghost m = c@.subrange(start as int, end as int);
    let p = find_dot(c, start, end);
    proof {
        lemma_dot_at(m);
    }
    let mut out: Vec<char> = Vec::new();
    let mut i: usize = start;
    while i < p
        invariant
            start <= i <= p <= end <= c@.len(),
            out@ == c@.subrange(start as int, i as int),
        decreases p - i,
    {
        out.push(c[i]);
        proof {
            assert(c@.subrange(start as int, i + 1) =~= c@.subrange(start as int, i as int).push(c@[i as int]));
        }
        i = i + 1;
    }
    if p < end {
        let mut j: usize = p + 1;
        while j < end
            invariant
                start <= p < j <= end,
                end <= c@.len(),
                out@ == c@.subrange(start as int, p as int) + c@.subrange(p + 1, j as int),
            decreases end - j,
        {
            out.push(c[j]);
            proof {
                assert(c@.subrange(p + 1, j + 1) =~= c@.subrange(p + 1, j as int).push(c@[j as int]));
                assert(c@.subrange(start as int, p as int) + c@.subrange(p + 1, j + 1) =~= (c@.subrange(
                    start as int,
                    p as int,
                ) + c@.subrange(p + 1, j as int)).push(c@[j as int]));
            }
            j = j + 1;
        }
        proof {
            assert(m.take(p - start) =~= c@.subrange(start as int, p as int));
            assert(m.skip(p - start + 1) =~= c@.subrange(p + 1, end as int));
        }
    } else {
        proof {
            assert(m =~= c@.subrange(start as int, p as int));
        }
    }
    out
}

/// The value of a digit character.
fn digit_of_char(ch: char) -> (r: i64)
    requires
        is_digit(ch),
    ensures
        r == digit_value(ch),
{
    (ch as u32 - '0' as u32) as i64
}

/// The digit at `i` of `d`, or 0 outside the digits.
fn digit_at_exec(d: &Vec<char>, i: i128) -> (r: i64)
    requires
        all_digits(d@),
    ensures
        r == digit_at(d@, i as int),
        0 <= r <= 9,
{
    if i >= 0 && i < d.len() as i128 {
        digit_of_char(d[i as usize])
    } else {
        0
    }
}

/// `magnitude_thousandths(d, q)` for a point that lies at most three
/// places before the digits and not after them.
fn magnitude_exec(d: &Vec<char>, q: i128) -> (r: i64)
    requires
        all_digits(d@),
        -3 <= q <= d@.len(),
    ensures
        r == magnitude_thousandths(d@, q as int),
        0 <= r <= 1000,
{
    let n = d.len();
    let mut i: usize = 0;
    while (i as i128) < q
        invariant
            n == d@.len(),
            0 <= i,
            i as int <= q || i == 0,
            q <= d@.len(),
            forall|j: int| 0 <= j < i ==> d@[j] == '0',
        decreases q - i,
    {
        if d[i] != '0' {
            return 1000;
        }
        i = i + 1;
    }
    100 * digit_at_exec(d, q) + 10 * digit_at_exec(d, q + 1) + digit_at_exec(d, q + 2)
}

/// The value of a number word in thousandths (see `float_thousandths_spec`).
pub fn float_thousandths(s: &str) -> (r: i64)
    requires
        is_float_text(s@),
    ensures
        r == float_thousandths_spec(s@),
        -1000 <= r <= 1000,
{
    let c = chars_of(s);
    let negative = c.len() > 0 && c[0] == '-';
    let start: usize = if c.len() > 0 && (c[0] == '+' || c[0] == '-') {
        1
    } else {
        0
    };
    let ghost t = unsigned_part(s@);
    proof {
        assert(t =~= c@.skip(start as int));
    }
    let magnitude: i64 = if lower_equals(&c, start, "inf") || lower_equals(&c, start, "infinity") {
        1000
    } else if lower_equals(&c, start, "nan") {
        0
    } else {
        let k = find_exponent(&c, start);
        let ghost kk = exponent_at(t);
        let ghost m = t.take(kk as int);
        proof {
            lemma_exponent_at(t);
            assert(m =~= c@.subrange(start as int, k as int));
        }
        let d = mantissa_digit_vec(&c, start, k);
        let p = find_dot(&c, start, k);
        proof {
            lemma_dot_at(m);
            assert(is_mantissa(m));
            assert(all_digits(d@)) by {
                assert forall|i: int| 0 <= i < d@.len() implies is_digit(#[trigger] d@[i]) by {
                    if dot_at(m) < m.len() {
                        if i < dot_at(m) {
                            assert(d@[i] == m[i]);
                        } else {
                            assert(d@[i] == m[i + 1]);
                            if m[i + 1] == '.' {
                                assert(m[dot_at(m) as int] == '.');
                            }
                        }
                    } else {
                        assert(d@[i] == m[i]);
                    }
                }
            }
            assert(d@.len() <= c@.len());
        }
        let shift: i128 = if k < c.len() {
            proof {
                assert(t.skip(kk as int + 1) =~= c@.skip(k + 1));
            }
            exponent_saturated(&c, k + 1)
        } else {
            0
        };
        let q: i128 = (p - start) as i128 + shift;
        let dl = d.len() as i128;
        let clamped: i128 = if q < -3 {
            -3
        } else if q > dl {
            dl
        } else {
            q
        };
        proof {
            let exact = dot_at(m) + if kk < t.len() {
                exponent_value(t.skip(kk as int + 1))
            } else {
                0
            };
            lemma_magnitude_clamp(d@, exact);
            lemma_magnitude_clamp(d@, clamped as int);
        }
        magnitude_exec(&d, clamped)
    };
    if negative {
        -magnitude
    } else {
        magnitude
    }
}
} // verus!
