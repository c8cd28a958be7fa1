//! Character-level helpers: whitespace, ASCII case folding and decimal numbers.

use vstd::prelude::*;
use vstd::string::StringExecFns;
use vstd::utf8::is_ascii_chars;

verus! {

/// Whether `c` is a whitespace character, as `char::is_whitespace` defines it
/// (the Unicode `White_Space` property).
pub open spec fn is_ws(c: char) -> bool {
    let v = c as u32;
    (0x09 <= v && v <= 0x0d) || v == 0x20 || v == 0x85 || v == 0xa0 || v == 0x1680 || (0x2000
        <= v && v <= 0x200a) || v == 0x2028 || v == 0x2029 || v == 0x202f || v == 0x205f || v
        == 0x3000
}

/// Executable form of [`is_ws`].
pub fn is_whitespace(c: char) -> (r: bool)
    ensures
        r == is_ws(c),
{
    let v = c as u32;
    (0x09 <= v && v <= 0x0d) || v == 0x20 || v == 0x85 || v == 0xa0 || v == 0x1680 || (0x2000
        <= v && v <= 0x200a) || v == 0x2028 || v == 0x2029 || v == 0x202f || v == 0x205f || v
        == 0x3000
}

/// The characters of `s`, in order.
pub fn chars_of(s: &str) -> (r: Vec<char>)
    ensures
        r@ == s@,
{
    let mut out: Vec<char> = Vec::new();
    for c in it: s.chars()
        invariant
            out@ == it.seq().take(it.index() as int),
    {
        out.push(c);
    }
    out
}


/// Relies on `String::push`: appends one character at the end.
#[verifier::external_body]
pub(crate) fn push_char(s: &mut String, c: char)
    ensures
        final(s)@ == old(s)@.push(c),
{
    s.push(c)
}

/// The words of `t` as `str::split_whitespace` yields them, with `cur` the
/// word being read when `t` starts.
pub open spec fn words_from(t: Seq<char>, cur: Seq<char>) -> Seq<Seq<char>>
    decreases t.len(),
{
    if t.len() == 0 {
        if cur.len() > 0 {
            seq![cur]
        } else {
            seq![]
        }
    } else if is_ws(t[0]) {
        (if cur.len() > 0 {
            seq![cur]
        } else {
            seq![]
        }) + words_from(t.drop_first(), seq![])
    } else {
        words_from(t.drop_first(), cur.push(t[0]))
    }
}

/// The word `cur` as a list: itself if it is non-empty, else nothing.
pub open spec fn flush(cur: Seq<char>) -> Seq<Seq<char>> {
    if cur.len() > 0 {
        seq![cur]
    } else {
        seq![]
    }
}

/// Whether every character of `t` is whitespace.
pub open spec fn all_ws(t: Seq<char>) -> bool {
    forall|i: int| 0 <= i < t.len() ==> is_ws(#[trigger] t[i])
}

/// Whether no character of `t` is whitespace.
pub open spec fn no_ws(t: Seq<char>) -> bool {
    forall|i: int| 0 <= i < t.len() ==> !is_ws(#[trigger] t[i])
}

/// The maximal runs of non-whitespace characters of `t`, in order.
pub open spec fn words(t: Seq<char>) -> Seq<Seq<char>> {
    words_from(t, seq![])
}

/// Splits `s` into its words, like `str::split_whitespace`.
pub fn split_words<'a>(s: &'a str) -> (r: Vec<&'a str>)
    ensures
        r@.len() == words(s@).len(),
        forall|i: int| 0 <= i < r@.len() ==> #[trigger] r@[i]@ == words(s@)[i],
{
    let t = chars_of(s);
    let n = t.len();
    let mut out: Vec<&'a str> = Vec::new();
    let mut start: usize = 0;
    let mut in_word = false;
    let mut i: usize = 0;
    assert(t@.skip(0) =~= t@);
    assert(out@.map_values(|w: &str| w@) =~= Seq::<Seq<char>>::empty());
    while i < n
        invariant
            n == t@.len(),
            t@ == s@,
            i <= n,
            in_word ==> start <= i,
            ({
                let cur = if in_word {
                    t@.subrange(start as int, i as int)
                } else {
                    seq![]
                };
                words(s@) == out@.map_values(|w: &str| w@) + words_from(t@.skip(i as int), cur)
            }),
            in_word ==> start < i,
        decreases n - i,
    {
        let ghost cur = if in_word {
            t@.subrange(start as int, i as int)
        } else {
            seq![]
        };
        let ghost rest = t@.skip(i as int);
        assert(rest.drop_first() =~= t@.skip(i + 1));
        assert(rest[0] == t@[i as int]);
        if is_whitespace(t[i]) {
            if in_word {
                let w = s.substring_char(start, i);
                let ghost before = out@.map_values(|w: &str| w@);
                out.push(w);
                assert(out@.map_values(|w: &str| w@) =~= before + seq![cur]);
            }
            in_word = false;
        } else {
            if !in_word {
                start = i;
                in_word = true;
                assert(seq![].push(t@[i as int]) =~= t@.subrange(start as int, i + 1));
            } else {
                assert(cur.push(t@[i as int]) =~= t@.subrange(start as int, i + 1));
            }
        }
        i = i + 1;
    }
    if in_word {
        let w = s.substring_char(start, n);
        let ghost before = out@.map_values(|w: &str| w@);
        out.push(w);
        assert(out@.map_values(|w: &str| w@) =~= before + seq![t@.subrange(start as int, n as int)]);
    }
    assert(out@.map_values(|w: &str| w@) =~= words(s@));
    out
}


/// `c` with ASCII lower-case letters mapped to upper case.
pub open spec fn ascii_upper(c: char) -> char {
    let v = c as u32;
    if 0x61 <= v && v <= 0x7a {
        (v - 0x20) as char
    } else {
        c
    }
}

/// What `str::to_uppercase` returns for a string holding `s`.
pub uninterp spec fn upper_of(s: Seq<char>) -> Seq<char>;

/// Relies on `str::to_uppercase`: the full Unicode upper-case mapping, whose
/// result depends on the characters of `s` alone.
#[verifier::external_body]
fn to_upper(s: &str) -> (r: String)
    ensures
        r@ == upper_of(s@),
{
    s.to_uppercase()
}

/// `w` with each ASCII lower-case letter mapped to upper case.
pub open spec fn ascii_upper_word(w: Seq<char>) -> Seq<char> {
    w.map_values(|c: char| ascii_upper(c))
}

/// Whether the word `w`, brought to upper case, is `kw`. ASCII words are
/// folded letter by letter; other words go through the Unicode mapping.
pub open spec fn upper_is(w: Seq<char>, kw: Seq<char>) -> bool {
    if is_ascii_chars(w) {
        ascii_upper_word(w) == kw
    } else {
        upper_of(w) == kw
    }
}

/// Executable form of [`upper_is`].
pub fn upper_equals(w: &str, kw: &str) -> (r: bool)
    ensures
        r == upper_is(w@, kw@),
{
    if w.is_ascii() {
        let a = chars_of(w);
        let b = chars_of(kw);
        if a.len() != b.len() {
            assert(ascii_upper_word(a@).len() != b@.len());
            return false;
        }
        let mut i: usize = 0;
        while i < a.len()
            invariant
                a@ == w@,
                b@ == kw@,
                is_ascii_chars(w@),
                a@.len() == b@.len(),
                i <= a@.len(),
                forall|j: int| 0 <= j < i ==> ascii_upper(#[trigger] a@[j]) == b@[j],
            decreases a.len() - i,
        {
            let c = a[i];
            let v = c as u32;
            let u = if 0x61 <= v && v <= 0x7a {
                ((v - 0x20) as u8) as char
            } else {
                c
            };
            assert(u == ascii_upper(c));
            if u != b[i] {
                assert(ascii_upper_word(a@)[i as int] != b@[i as int]);
                return false;
            }
            i = i + 1;
        }
        assert(ascii_upper_word(a@) =~= b@);
        true
    } else {
        let u = to_upper(w);
        let k = kw.to_owned();
        u == k
    }
}

/// Whether `c` is an ASCII decimal digit.
pub open spec fn is_digit(c: char) -> bool {
    0x30 <= (c as u32) && (c as u32) <= 0x39
}

/// The value of the ASCII digit `c`.
pub open spec fn digit_value(c: char) -> nat {
    ((c as u32) - 0x30) as nat
}

/// The value of the decimal digits `s`, most significant first.
pub open spec fn digits_value(s: Seq<char>) -> nat
    decreases s.len(),
{
    if s.len() == 0 {
        0
    } else {
        digits_value(s.drop_last()) * 10 + digit_value(s.last())
    }
}

/// `s` without a leading `+` sign, if it has one.
pub open spec fn unsigned_part(s: Seq<char>) -> Seq<char> {
    if s.len() > 0 && s[0] == '+' {
        s.drop_first()
    } else {
        s
    }
}

/// What `str::parse::<u8>` accepts: an optional `+`, then one or more ASCII
/// digits whose value is at most 255.
pub open spec fn parse_u8(s: Seq<char>) -> Option<u8> {
    let d = unsigned_part(s);
    if d.len() > 0 && (forall|i: int| 0 <= i < d.len() ==> is_digit(#[trigger] d[i]))
        && digits_value(d) <= 255 {
        Some(digits_value(d) as u8)
    } else {
        None
    }
}

proof fn lemma_digits_value_prefix(s: Seq<char>, k: int)
    requires
        0 <= k <= s.len(),
    ensures
        digits_value(s.take(k)) <= digits_value(s),
    decreases s.len(),
{
    if k < s.len() {
        assert(s.drop_last().take(k) =~= s.take(k));
        lemma_digits_value_prefix(s.drop_last(), k);
    } else {
        assert(s.take(k) =~= s);
    }
}

/// Reads an unsigned 8-bit number, as `str::parse::<u8>` does.
pub fn parse_byte(s: &str) -> (r: Option<u8>)
    ensures
        r == parse_u8(s@),
{
    let t = chars_of(s);
    let mut i: usize = 0;
    if t.len() > 0 && t[0] == '+' {
        i = 1;
    }
    let start = i;
    let ghost d = unsigned_part(s@);
    assert(d =~= t@.skip(start as int));
    if start == t.len() {
        return None;
    }
    let mut value: u32 = 0;
    while i < t.len()
        invariant
            t@ == s@,
            d == unsigned_part(s@),
            d == t@.skip(start as int),
            start <= i <= t@.len(),
            value <= 255,
            value == digits_value(d.take(i - start)),
            forall|j: int| 0 <= j < i - start ==> is_digit(#[trigger] d[j]),
        decreases t.len() - i,
    {
        let c = t[i];
        let v = c as u32;
        assert(d[i - start] == c);
        if v < 0x30 || v > 0x39 {
            assert(!is_digit(d[i - start]));
            return None;
        }
        assert(d.take(i - start + 1).drop_last() =~= d.take(i - start));
        assert(d.take(i - start + 1).last() == c);
        assert(digits_value(d.take(i - start + 1)) == digits_value(d.take(i - start)) * 10
            + digit_value(c));
        value = value * 10 + (v - 0x30);
        i = i + 1;
        if value > 255 {
            proof {
                lemma_digits_value_prefix(d, i - start);
            }
            return None;
        }
    }
    assert(d.take(i - start) =~= d);
    Some(value as u8)
}

/// The ASCII digit for `d`.
pub open spec fn digit_char(d: nat) -> char {
    ((0x30 + d) as u32) as char
}

/// `n` written in decimal, without leading zeros.
pub open spec fn decimal(n: nat) -> Seq<char>
    decreases n,
{
    if n < 10 {
        seq![digit_char(n)]
    } else {
        decimal(n / 10).push(digit_char(n % 10))
    }
}

/// Writes `n` in decimal.
pub fn decimal_string(n: u64) -> (r: String)
    ensures
        r@ == decimal(n as nat),
    decreases n,
{
    let digit = ((0x30 + n % 10) as u8) as char;
    assert(digit == digit_char((n % 10) as nat));
    if n < 10 {
        let mut s = String::new();
        push_char(&mut s, digit);
        assert(s@ =~= seq![digit]);
        s
    } else {
        let mut s = decimal_string(n / 10);
        push_char(&mut s, digit);
        s
    }
}

/// The decimal form of a number reads back as that number.
pub proof fn lemma_decimal_digits(n: nat)
    ensures
        decimal(n).len() > 0,
        forall|i: int| 0 <= i < decimal(n).len() ==> is_digit(#[trigger] decimal(n)[i]),
        digits_value(decimal(n)) == n,
    decreases n,
{
    if n < 10 {
        let d = decimal(n);
        assert(d.drop_last() =~= Seq::<char>::empty());
        assert(digits_value(Seq::<char>::empty()) == 0);
        assert(d.last() == digit_char(n));
        assert(digit_value(digit_char(n)) == n);
    } else {
        lemma_decimal_digits(n / 10);
        let d = decimal(n);
        assert(d.drop_last() =~= decimal(n / 10));
        assert(d.last() == digit_char(n % 10));
        assert(digit_value(digit_char(n % 10)) == n % 10);
        assert(n == (n / 10) * 10 + n % 10);
        assert forall|i: int| 0 <= i < d.len() implies is_digit(#[trigger] d[i]) by {
            if i < d.len() - 1 {
                assert(d[i] == decimal(n / 10)[i]);
            }
        }
    }
}

/// Every byte value, written in decimal, parses back to itself.
pub proof fn lemma_parse_decimal(b: u8)
    ensures
        parse_u8(decimal(b as nat)) == Some(b),
{
    lemma_decimal_digits(b as nat);
    assert(is_digit(decimal(b as nat)[0]));
    assert(unsigned_part(decimal(b as nat)) == decimal(b as nat));
}


/// `parts` with `sep` between each two adjacent ones.
pub open spec fn join(parts: Seq<Seq<char>>, sep: Seq<char>) -> Seq<char>
    decreases parts.len(),
{
    if parts.len() == 0 {
        seq![]
    } else if parts.len() == 1 {
        parts[0]
    } else {
        join(parts.drop_last(), sep) + sep + parts.last()
    }
}

/// Executable form of [`join`].
pub fn join_strings(parts: &Vec<String>, sep: &str) -> (r: String)
    ensures
        r@ == join(parts@.map_values(|p: String| p@), sep@),
{
    let ghost views = parts@.map_values(|p: String| p@);
    let mut out = String::new();
    let mut i: usize = 0;
    while i < parts.len()
        invariant
            i <= parts@.len(),
            views == parts@.map_values(|p: String| p@),
            out@ == join(views.take(i as int), sep@),
        decreases parts.len() - i,
    {
        assert(views.take(i + 1).drop_last() =~= views.take(i as int));
        if i > 0 {
            out.append(sep);
        } else {
            assert(out@ + parts[0]@ =~= parts[0]@);
        }
        out.append(parts[i].as_str());
        i = i + 1;
    }
    assert(views.take(parts.len() as int) =~= views);
    out
}


/// Reading a word with no whitespace extends the word being read.
pub proof fn lemma_words_word(w: Seq<char>, x: Seq<char>, cur: Seq<char>)
    requires
        no_ws(w),
    ensures
        words_from(w + x, cur) == words_from(x, cur + w),
    decreases w.len(),
{
    if w.len() == 0 {
        assert(w + x =~= x);
        assert(cur + w =~= cur);
    } else {
        assert((w + x)[0] == w[0]);
        assert((w + x).drop_first() =~= w.drop_first() + x);
        assert(!is_ws(w[0]));
        assert forall|i: int| 0 <= i < w.drop_first().len() implies !is_ws(
            #[trigger] w.drop_first()[i],
        ) by {
            assert(w.drop_first()[i] == w[i + 1]);
        }
        lemma_words_word(w.drop_first(), x, cur.push(w[0]));
        assert(cur.push(w[0]) + w.drop_first() =~= cur + w);
    }
}

/// A non-empty run of whitespace ends the word being read.
pub proof fn lemma_words_ws_run(s: Seq<char>, x: Seq<char>, cur: Seq<char>)
    requires
        s.len() > 0,
        all_ws(s),
    ensures
        words_from(s + x, cur) == flush(cur) + words_from(x, seq![]),
    decreases s.len(),
{
    assert((s + x)[0] == s[0]);
    assert(is_ws(s[0]));
    assert((s + x).drop_first() =~= s.drop_first() + x);
    if s.len() == 1 {
        assert(s.drop_first() + x =~= x);
    } else {
        assert forall|i: int| 0 <= i < s.drop_first().len() implies is_ws(
            #[trigger] s.drop_first()[i],
        ) by {
            assert(s.drop_first()[i] == s[i + 1]);
        }
        lemma_words_ws_run(s.drop_first(), x, seq![]);
        assert(flush(seq![]) + words_from(x, seq![]) =~= words_from(x, seq![]));
    }
}

/// The words that reading `a` completes, with `cur` read before it.
spec fn emitted(a: Seq<char>, cur: Seq<char>) -> Seq<Seq<char>>
    decreases a.len(),
{
    if a.len() == 0 {
        seq![]
    } else if is_ws(a[0]) {
        flush(cur) + emitted(a.drop_first(), seq![])
    } else {
        emitted(a.drop_first(), cur.push(a[0]))
    }
}

/// The word being read after `a`, with `cur` read before it.
spec fn carried(a: Seq<char>, cur: Seq<char>) -> Seq<char>
    decreases a.len(),
{
    if a.len() == 0 {
        cur
    } else if is_ws(a[0]) {
        carried(a.drop_first(), seq![])
    } else {
        carried(a.drop_first(), cur.push(a[0]))
    }
}

proof fn lemma_words_prefix(a: Seq<char>, x: Seq<char>, cur: Seq<char>)
    ensures
        words_from(a + x, cur) == emitted(a, cur) + words_from(x, carried(a, cur)),
    decreases a.len(),
{
    if a.len() == 0 {
        assert(a + x =~= x);
        assert(emitted(a, cur) + words_from(x, cur) =~= words_from(x, cur));
    } else {
        assert((a + x)[0] == a[0]);
        assert((a + x).drop_first() =~= a.drop_first() + x);
        if is_ws(a[0]) {
            lemma_words_prefix(a.drop_first(), x, seq![]);
            assert(flush(cur) + (emitted(a.drop_first(), seq![]) + words_from(
                x,
                carried(a.drop_first(), seq![]),
            )) =~= (flush(cur) + emitted(a.drop_first(), seq![])) + words_from(
                x,
                carried(a.drop_first(), seq![]),
            ));
        } else {
            lemma_words_prefix(a.drop_first(), x, cur.push(a[0]));
        }
    }
}

/// Whitespace after the last word adds no word.
pub proof fn lemma_words_trailing_ws(t: Seq<char>, s: Seq<char>)
    requires
        all_ws(s),
    ensures
        words(t + s) == words(t),
{
    lemma_words_prefix(t, s, seq![]);
    lemma_words_prefix(t, seq![], seq![]);
    assert(t + seq![] =~= t);
    if s.len() > 0 {
        lemma_words_ws_run(s, seq![], carried(t, seq![]));
        assert(s + seq![] =~= s);
        assert(flush(carried(t, seq![])) + words_from(seq![], seq![]) =~= flush(
            carried(t, seq![]),
        ));
    } else {
        assert(t + s =~= t);
    }
}

/// Whitespace before the first word adds no word.
pub proof fn lemma_words_leading_ws(s: Seq<char>, t: Seq<char>)
    requires
        all_ws(s),
    ensures
        words(s + t) == words(t),
{
    if s.len() > 0 {
        lemma_words_ws_run(s, t, seq![]);
        assert(flush(seq![]) + words_from(t, seq![]) =~= words_from(t, seq![]));
    } else {
        assert(s + t =~= t);
    }
}

/// Any non-empty run of whitespace between two texts splits words alike.
pub proof fn lemma_words_inner_ws(a: Seq<char>, s1: Seq<char>, s2: Seq<char>, b: Seq<char>)
    requires
        s1.len() > 0,
        s2.len() > 0,
        all_ws(s1),
        all_ws(s2),
    ensures
        words(a + s1 + b) == words(a + s2 + b),
{
    assert(a + s1 + b =~= a + (s1 + b));
    assert(a + s2 + b =~= a + (s2 + b));
    lemma_words_prefix(a, s1 + b, seq![]);
    lemma_words_prefix(a, s2 + b, seq![]);
    lemma_words_ws_run(s1, b, carried(a, seq![]));
    lemma_words_ws_run(s2, b, carried(a, seq![]));
}

} // verus!
