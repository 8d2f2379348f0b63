//! Text primitives shared by the codec and the decoders: the characters of a
//! string, whitespace-separated tokens, and hexadecimal reading and writing.

use vstd::prelude::*;

verus! {

/// The characters of `s`, in order.
pub fn chars_of(s: &str) -> (v: Vec<char>)
    ensures
        v@ == s@,
{
    let mut v: Vec<char> = Vec::new();
    for c in it: s.chars()
        invariant
            it.seq() == s@,
            v@ == s@.take(it.index() as int),
    {
        v.push(c);
    }
    v
}

/// Whether two strings hold the same characters.
pub fn str_eq(a: &str, b: &str) -> (r: bool)
    ensures
        r == (a@ == b@),
{
    let x = chars_of(a);
    let y = chars_of(b);
    chars_eq(&x, &y)
}

/// Whether two character vectors are equal.
pub fn chars_eq(x: &Vec<char>, y: &Vec<char>) -> (r: bool)
    ensures
        r == (x@ == y@),
{
    if x.len() != y.len() {
        return false;
    }
    let mut i: usize = 0;
    while i < x.len()
        invariant
            x.len() == y.len(),
            i <= x.len(),
            x@.take(i as int) == y@.take(i as int),
        decreases x.len() - i,
    {
        if x[i] != y[i] {
            return false;
        }
        proof {
            assert(x@.take(i + 1) == x@.take(i as int).push(x@[i as int]));
            assert(y@.take(i + 1) == y@.take(i as int).push(y@[i as int]));
        }
        i += 1;
    }
    proof {
        assert(x@.take(x.len() as int) == x@);
        assert(y@.take(y.len() as int) == y@);
    }
    true
}

/// Unicode's White_Space characters.
pub open spec fn is_whitespace(c: char) -> bool {
    let u = c as u32;
    ||| 0x09 <= u <= 0x0D
    ||| u == 0x20
    ||| u == 0x85
    ||| u == 0xA0
    ||| u == 0x1680
    ||| 0x2000 <= u <= 0x200A
    ||| u == 0x2028
    ||| u == 0x2029
    ||| u == 0x202F
    ||| u == 0x205F
    ||| u == 0x3000
}

/// Whether `c` is a whitespace character.
pub fn char_is_whitespace(c: char) -> (r: bool)
    ensures
        r == is_whitespace(c),
{
    let u: u32 = c as u32;
    (0x09 <= u && u <= 0x0D) || u == 0x20 || u == 0x85 || u == 0xA0 || u == 0x1680 || (0x2000 <= u
        && u <= 0x200A) || u == 0x2028 || u == 0x2029 || u == 0x202F || u == 0x205F || u == 0x3000
}

/// The maximal runs of non-whitespace characters of `s`, in order.
///
/// Read from the right: a whitespace character adds nothing; any other
/// character extends the last token when the character before it is no
/// whitespace, and starts a new token otherwise.
pub open spec fn tokens(s: Seq<char>) -> Seq<Seq<char>>
    decreases s.len(),
{
    if s.len() == 0 {
        Seq::empty()
    } else {
        let before = tokens(s.drop_last());
        if is_whitespace(s.last()) {
            before
        } else if s.len() >= 2 && !is_whitespace(s[s.len() - 2]) {
            before.drop_last().push(before.last().push(s.last()))
        } else {
            before.push(seq![s.last()])
        }
    }
}

/// Whether `t` is a word: not empty, and free of whitespace.
pub open spec fn is_word(t: Seq<char>) -> bool {
    t.len() > 0 && forall|j: int| 0 <= j < t.len() ==> !is_whitespace(#[trigger] t[j])
}

/// Every token is a word, and a text that ends in a word has a token.
pub proof fn lemma_tokens_are_words(s: Seq<char>)
    ensures
        forall|i: int| 0 <= i < tokens(s).len() ==> is_word(#[trigger] tokens(s)[i]),
        s.len() > 0 && !is_whitespace(s.last()) ==> tokens(s).len() > 0,
    decreases s.len(),
{
    if s.len() > 0 {
        let front = s.drop_last();
        let before = tokens(front);
        lemma_tokens_are_words(front);
        if !is_whitespace(s.last()) {
            if s.len() >= 2 && !is_whitespace(s[s.len() - 2]) {
                assert(front.last() == s[s.len() - 2]);
                let grown = before.last().push(s.last());
                assert(is_word(before.last()));
                assert forall|j: int| 0 <= j < grown.len() implies !is_whitespace(
                    #[trigger] grown[j],
                ) by {
                    if j < before.last().len() {
                        assert(grown[j] == before.last()[j]);
                    }
                }
                assert(is_word(grown));
                assert forall|i: int| 0 <= i < tokens(s).len() implies is_word(
                    #[trigger] tokens(s)[i],
                ) by {
                    if i < before.len() - 1 {
                        assert(tokens(s)[i] == before[i]);
                    }
                }
            } else {
                assert(is_word(seq![s.last()]));
                assert forall|i: int| 0 <= i < tokens(s).len() implies is_word(
                    #[trigger] tokens(s)[i],
                ) by {
                    if i < before.len() {
                        assert(tokens(s)[i] == before[i]);
                    }
                }
            }
        }
    }
}

/// Every character of a text that is no whitespace stands in one of its
/// tokens.
pub proof fn lemma_token_holds(s: Seq<char>, i: int) -> (at: (int, int))
    requires
        0 <= i < s.len(),
        !is_whitespace(s[i]),
    ensures
        0 <= at.0 < tokens(s).len(),
        0 <= at.1 < tokens(s)[at.0].len(),
        tokens(s)[at.0][at.1] == s[i],
    decreases s.len(),
{
    let front = s.drop_last();
    let before = tokens(front);
    lemma_tokens_are_words(front);
    let grows = s.len() >= 2 && !is_whitespace(s[s.len() - 2]);
    if grows {
        assert(front.last() == s[s.len() - 2]);
    }
    if i == s.len() - 1 {
        if grows {
            (before.len() - 1, before.last().len() as int)
        } else {
            (before.len() as int, 0)
        }
    } else {
        let found = lemma_token_holds(front, i);
        assert(front[i] == s[i]);
        found
    }
}

/// The views of a vector of character vectors.
pub open spec fn views(v: Seq<Vec<char>>) -> Seq<Seq<char>> {
    v.map_values(|t: Vec<char>| t@)
}

/// Splits `s` at whitespace and drops the empty pieces.
pub fn split_whitespace(s: &Vec<char>) -> (out: Vec<Vec<char>>)
    ensures
        views(out@) == tokens(s@),
{
    let mut out: Vec<Vec<char>> = Vec::new();
    let mut cur: Vec<char> = Vec::new();
    let mut i: usize = 0;
    while i < s.len()
        invariant
            i <= s.len(),
            cur@.len() > 0 ==> i > 0 && !is_whitespace(s@[i - 1]) && tokens(s@.take(i as int))
                == views(out@).push(cur@),
            cur@.len() == 0 ==> (i == 0 || is_whitespace(s@[i - 1])) && tokens(s@.take(i as int))
                == views(out@),
        decreases s.len() - i,
    {
        let c = s[i];
        proof {
            let next = s@.take(i + 1);
            assert(next.drop_last() == s@.take(i as int));
            assert(next.last() == c);
            if i > 0 {
                assert(next[next.len() - 2] == s@[i - 1]);
            }
        }
        if char_is_whitespace(c) {
            if cur.len() > 0 {
                proof {
                    assert(views(out@.push(cur)) == views(out@).push(cur@));
                }
                out.push(cur);
                cur = Vec::new();
            }
        } else {
            proof {
                let next = s@.take(i + 1);
                if cur@.len() > 0 {
                    let before = views(out@).push(cur@);
                    assert(before.drop_last() == views(out@));
                    assert(before.last() == cur@);
                    assert(tokens(next) == views(out@).push(cur@.push(c)));
                } else {
                    assert(cur@.push(c) == seq![c]);
                    assert(tokens(next) == views(out@).push(seq![c]));
                }
            }
            cur.push(c);
        }
        i += 1;
    }
    proof {
        assert(s@.take(s.len() as int) == s@);
    }
    if cur.len() > 0 {
        proof {
            assert(views(out@.push(cur)) == views(out@).push(cur@));
        }
        out.push(cur);
    }
    out
}

/// The sixteen hexadecimal digits, in either case.
pub open spec fn is_hex_digit(c: char) -> bool {
    let u = c as u32;
    ||| 0x30 <= u <= 0x39
    ||| 0x41 <= u <= 0x46
    ||| 0x61 <= u <= 0x66
}

/// The value of a hexadecimal digit.
pub open spec fn hex_digit_value(c: char) -> nat {
    let u = c as u32;
    if 0x30 <= u <= 0x39 {
        (u - 0x30) as nat
    } else if 0x41 <= u <= 0x46 {
        (u - 0x41 + 10) as nat
    } else {
        (u - 0x61 + 10) as nat
    }
}

/// Whether `s` holds hexadecimal digits only.
pub open spec fn all_hex_digits(s: Seq<char>) -> bool {
    forall|i: int| 0 <= i < s.len() ==> is_hex_digit(#[trigger] s[i])
}

/// The number that the digits of `s` write in base sixteen, most significant
/// digit first.
pub open spec fn hex_digits_value(s: Seq<char>) -> nat
    decreases s.len(),
{
    if s.len() == 0 {
        0
    } else {
        hex_digits_value(s.drop_last()) * 16 + hex_digit_value(s.last())
    }
}

/// `s` without one leading plus sign.
pub open spec fn unsigned_part(s: Seq<char>) -> Seq<char> {
    if s.len() > 0 && s[0] == '+' {
        s.drop_first()
    } else {
        s
    }
}

/// What a reader of hexadecimal digits makes of `s`: at least one digit and
/// nothing else, and a value of at most `max`. Leading zeros are accepted; a
/// sign is not.
pub open spec fn read_hex_digits(s: Seq<char>, max: nat) -> Option<nat> {
    if s.len() > 0 && all_hex_digits(s) && hex_digits_value(s) <= max {
        Some(hex_digits_value(s))
    } else {
        None
    }
}

/// What a base-sixteen reader of unsigned integers makes of `s`: an optional
/// plus sign, then what `read_hex_digits` makes of the rest.
pub open spec fn read_hex(s: Seq<char>, max: nat) -> Option<nat> {
    read_hex_digits(unsigned_part(s), max)
}

/// What is read without a sign is read the same where a sign is accepted.
pub proof fn lemma_digits_need_no_sign(s: Seq<char>, max: nat)
    requires
        read_hex_digits(s, max) is Some,
    ensures
        read_hex(s, max) == read_hex_digits(s, max),
{
    assert(is_hex_digit(s[0]));
}

/// Whether `s` holds a whitespace character.
pub open spec fn has_whitespace(s: Seq<char>) -> bool {
    exists|i: int| 0 <= i < s.len() && is_whitespace(#[trigger] s[i])
}

/// Whether `s` holds a whitespace character.
pub fn contains_whitespace(s: &Vec<char>) -> (r: bool)
    ensures
        r == has_whitespace(s@),
{
    let mut i: usize = 0;
    while i < s.len()
        invariant
            i <= s.len(),
            forall|j: int| 0 <= j < i ==> !is_whitespace(#[trigger] s@[j]),
        decreases s.len() - i,
    {
        if char_is_whitespace(s[i]) {
            return true;
        }
        i += 1;
    }
    false
}

/// More digits never write a smaller number.
pub proof fn lemma_hex_value_prefix(s: Seq<char>, k: int)
    requires
        0 <= k <= s.len(),
    ensures
        hex_digits_value(s.take(k)) <= hex_digits_value(s),
    decreases s.len() - k,
{
    if k < s.len() {
        lemma_hex_value_prefix(s, k + 1);
        assert(s.take(k + 1).drop_last() == s.take(k));
    } else {
        assert(s.take(k) == s);
    }
}

/// The value of `c` as a hexadecimal digit, if it is one.
pub fn hex_digit_of(c: char) -> (r: Option<u8>)
    ensures
        r is Some <==> is_hex_digit(c),
        r matches Some(d) ==> d == hex_digit_value(c) && d < 16,
{
    let u: u32 = c as u32;
    if 0x30 <= u && u <= 0x39 {
        Some((u - 0x30) as u8)
    } else if 0x41 <= u && u <= 0x46 {
        Some((u - 0x41 + 10) as u8)
    } else if 0x61 <= u && u <= 0x66 {
        Some((u - 0x61 + 10) as u8)
    } else {
        None
    }
}

/// Reads the characters of `s` from `start` on as hexadecimal digits that
/// write a number of at most `max`.
fn parse_digits_from(s: &Vec<char>, start: usize, max: u32) -> (r: Option<u32>)
    requires
        start <= s.len(),
    ensures
        match r {
            Some(v) => read_hex_digits(s@.skip(start as int), max as nat) == Some(v as nat),
            None => read_hex_digits(s@.skip(start as int), max as nat) is None,
        },
{
    if start >= s.len() {
        return None;
    }
    let ghost d = s@.skip(start as int);
    let mut acc: u32 = 0;
    let mut i: usize = start;
    while i < s.len()
        invariant
            start <= i <= s.len(),
            d == s@.skip(start as int),
            all_hex_digits(d.take(i - start)),
            acc == hex_digits_value(d.take(i - start)),
            acc <= max,
        decreases s.len() - i,
    {
        let ghost k = i - start;
        proof {
            assert(d.take(k + 1).drop_last() == d.take(k));
            assert(d.take(k + 1).last() == s@[i as int]);
        }
        match hex_digit_of(s[i]) {
            None => {
                proof {
                    assert(!is_hex_digit(d[k]));
                }
                return None;
            },
            Some(digit) => {
                let wide: u64 = (acc as u64) * 16 + (digit as u64);
                if wide > max as u64 {
                    proof {
                        assert(hex_digits_value(d.take(k + 1)) == wide);
                        lemma_hex_value_prefix(d, k + 1);
                    }
                    return None;
                }
                acc = wide as u32;
                proof {
                    assert forall|j: int| 0 <= j < d.take(k + 1).len() implies is_hex_digit(
                        #[trigger] d.take(k + 1)[j],
                    ) by {
                        if j < k {
                            assert(d.take(k + 1)[j] == d.take(k)[j]);
                        }
                    }
                }
            },
        }
        i += 1;
    }
    proof {
        assert(d.take(i - start) == d);
    }
    Some(acc)
}

/// Reads `s` as hexadecimal digits that write a number of at most `max`; a
/// sign is not accepted.
pub fn parse_hex_digits(s: &Vec<char>, max: u32) -> (r: Option<u32>)
    ensures
        match r {
            Some(v) => read_hex_digits(s@, max as nat) == Some(v as nat),
            None => read_hex_digits(s@, max as nat) is None,
        },
{
    proof {
        assert(s@.skip(0) =~= s@);
    }
    parse_digits_from(s, 0, max)
}

/// Reads `s` as a base-sixteen number of at most `max`, with or without a
/// plus sign before it.
pub fn parse_hex(s: &Vec<char>, max: u32) -> (r: Option<u32>)
    ensures
        match r {
            Some(v) => read_hex(s@, max as nat) == Some(v as nat),
            None => read_hex(s@, max as nat) is None,
        },
{
    let start: usize = if s.len() > 0 && s[0] == '+' {
        1
    } else {
        0
    };
    proof {
        assert(unsigned_part(s@) =~= s@.skip(start as int));
    }
    parse_digits_from(s, start, max)
}

/// The upper-case hexadecimal digit for `d`, which is below sixteen.
pub open spec fn hex_digit_char(d: nat) -> char {
    if d < 10 {
        (0x30 + d) as u8 as char
    } else {
        (0x41 + d - 10) as u8 as char
    }
}

/// A byte as two upper-case hexadecimal digits.
pub open spec fn hex2(b: u8) -> Seq<char> {
    seq![hex_digit_char((b / 16) as nat), hex_digit_char((b % 16) as nat)]
}

/// Bytes as two-digit pairs with one space between neighbours.
pub open spec fn hex_spaced(bytes: Seq<u8>) -> Seq<char>
    decreases bytes.len(),
{
    if bytes.len() == 0 {
        Seq::empty()
    } else if bytes.len() == 1 {
        hex2(bytes[0])
    } else {
        hex_spaced(bytes.drop_last()) + seq![' '] + hex2(bytes.last())
    }
}

/// Bytes as two-digit pairs with nothing between them.
pub open spec fn hex_packed(bytes: Seq<u8>) -> Seq<char>
    decreases bytes.len(),
{
    if bytes.len() == 0 {
        Seq::empty()
    } else {
        hex_packed(bytes.drop_last()) + hex2(bytes.last())
    }
}

/// A number in upper-case hexadecimal without leading zeros.
pub open spec fn hex_short(v: nat) -> Seq<char>
    decreases v,
{
    if v < 16 {
        seq![hex_digit_char(v)]
    } else {
        hex_short(v / 16).push(hex_digit_char(v % 16))
    }
}

fn digit_text(d: u8) -> (s: &'static str)
    requires
        d < 16,
    ensures
        s@ == seq![hex_digit_char(d as nat)],
{
    proof {
        reveal_strlit("0");
        reveal_strlit("1");
        reveal_strlit("2");
        reveal_strlit("3");
        reveal_strlit("4");
        reveal_strlit("5");
        reveal_strlit("6");
        reveal_strlit("7");
        reveal_strlit("8");
        reveal_strlit("9");
        reveal_strlit("A");
        reveal_strlit("B");
        reveal_strlit("C");
        reveal_strlit("D");
        reveal_strlit("E");
        reveal_strlit("F");
    }
    let s = match d {
        0 => "0",
        1 => "1",
        2 => "2",
        3 => "3",
        4 => "4",
        5 => "5",
        6 => "6",
        7 => "7",
        8 => "8",
        9 => "9",
        10 => "A",
        11 => "B",
        12 => "C",
        13 => "D",
        14 => "E",
        _ => "F",
    };
    assert(s@ =~= seq![hex_digit_char(d as nat)]);
    s
}

/// Appends the two hexadecimal digits of `b` to `out`.
pub fn push_hex2(out: &mut String, b: u8)
    ensures
        final(out)@ == old(out)@ + hex2(b),
{
    out.append(digit_text(b / 16));
    out.append(digit_text(b % 16));
    assert(out@ =~= old(out)@ + hex2(b));
}

/// Appends `bytes` to `out` as two-digit pairs, separated by single spaces.
pub fn push_hex_spaced(out: &mut String, bytes: &[u8])
    ensures
        final(out)@ == old(out)@ + hex_spaced(bytes@),
{
    let mut i: usize = 0;
    while i < bytes.len()
        invariant
            i <= bytes.len(),
            out@ == old(out)@ + hex_spaced(bytes@.take(i as int)),
        decreases bytes.len() - i,
    {
        proof {
            reveal_strlit(" ");
            let next = bytes@.take(i + 1);
            assert(next.drop_last() == bytes@.take(i as int));
            assert(next.last() == bytes@[i as int]);
            if i == 0 {
                assert(next[0] == bytes@[0]);
            }
        }
        if i > 0 {
            out.append(" ");
            assert(" "@ =~= seq![' ']);
        }
        push_hex2(out, bytes[i]);
        assert(out@ =~= old(out)@ + hex_spaced(bytes@.take(i + 1)));
        i += 1;
    }
    proof {
        assert(bytes@.take(bytes.len() as int) == bytes@);
    }
}

/// Appends `bytes` to `out` as two-digit pairs with nothing between them.
pub fn push_hex_packed(out: &mut String, bytes: &[u8])
    ensures
        final(out)@ == old(out)@ + hex_packed(bytes@),
{
    let mut i: usize = 0;
    while i < bytes.len()
        invariant
            i <= bytes.len(),
            out@ == old(out)@ + hex_packed(bytes@.take(i as int)),
        decreases bytes.len() - i,
    {
        proof {
            let next = bytes@.take(i + 1);
            assert(next.drop_last() == bytes@.take(i as int));
            assert(next.last() == bytes@[i as int]);
        }
        push_hex2(out, bytes[i]);
        assert(out@ =~= old(out)@ + hex_packed(bytes@.take(i + 1)));
        i += 1;
    }
    proof {
        assert(bytes@.take(bytes.len() as int) == bytes@);
    }
}

/// Appends `v` to `out` in upper-case hexadecimal without leading zeros.
pub fn push_hex_short(out: &mut String, v: u32)
    ensures
        final(out)@ == old(out)@ + hex_short(v as nat),
    decreases v,
{
    if v >= 16 {
        push_hex_short(out, v / 16);
    }
    out.append(digit_text((v % 16) as u8));
    assert(out@ =~= old(out)@ + hex_short(v as nat));
}

/// The digit written for a value below sixteen is a hexadecimal digit of that
/// value; it is no plus sign and no whitespace.
pub proof fn lemma_hex_digit_char(d: nat)
    requires
        d < 16,
    ensures
        is_hex_digit(hex_digit_char(d)),
        hex_digit_value(hex_digit_char(d)) == d,
        hex_digit_char(d) != '+',
        hex_digit_char(d) != ' ',
        !is_whitespace(hex_digit_char(d)),
{
}

/// The two digits written for a byte read back as that byte; they are a word
/// without a sign.
pub proof fn lemma_hex2_reads_back(b: u8)
    ensures
        read_hex_digits(hex2(b), 255) == Some(b as nat),
        read_hex(hex2(b), 255) == Some(b as nat),
        is_word(hex2(b)),
        all_hex_digits(hex2(b)),
        hex2(b).len() == 2,
{
    let hi = (b / 16) as nat;
    let lo = (b % 16) as nat;
    lemma_hex_digit_char(hi);
    lemma_hex_digit_char(lo);
    let s = hex2(b);
    assert(unsigned_part(s) == s);
    let one = s.drop_last();
    assert(one.drop_last() =~= Seq::<char>::empty());
    assert(hex_digits_value(one.drop_last()) == 0);
    assert(one.last() == hex_digit_char(hi));
    assert(hex_digits_value(one) == hi);
    assert(s.last() == hex_digit_char(lo));
    assert(hex_digits_value(s) == hi * 16 + lo);
}

/// Behind a text that is empty or ends in whitespace, a word is one more
/// token.
pub proof fn lemma_tokens_push_word(p: Seq<char>, w: Seq<char>)
    requires
        p.len() == 0 || is_whitespace(p.last()),
        is_word(w),
    ensures
        tokens(p + w) == tokens(p).push(w),
    decreases w.len(),
{
    let s = p + w;
    let front = w.drop_last();
    assert(s.drop_last() =~= p + front);
    assert(s.last() == w.last());
    if front.len() == 0 {
        assert(p + front =~= p);
        assert(seq![w.last()] =~= w);
        if p.len() > 0 {
            assert(s[s.len() - 2] == p.last());
        }
    } else {
        assert(is_word(front)) by {
            assert forall|j: int| 0 <= j < front.len() implies !is_whitespace(
                #[trigger] front[j],
            ) by {
                assert(front[j] == w[j]);
            }
        }
        lemma_tokens_push_word(p, front);
        assert(s[s.len() - 2] == front.last());
        assert(front.last() == w[w.len() - 2]);
        let before = tokens(p).push(front);
        assert(before.drop_last() =~= tokens(p));
        assert(front.push(w.last()) =~= w);
    }
}

/// A whitespace character at the end of a text adds no token.
pub proof fn lemma_tokens_push_whitespace(x: Seq<char>, c: char)
    requires
        is_whitespace(c),
    ensures
        tokens(x.push(c)) == tokens(x),
{
    assert(x.push(c).drop_last() =~= x);
}

/// The tokens of spaced hexadecimal pairs are the pairs.
pub proof fn lemma_tokens_of_spaced_hex(bytes: Seq<u8>)
    ensures
        tokens(hex_spaced(bytes)) == Seq::new(bytes.len(), |i: int| hex2(bytes[i])),
        bytes.len() >= 2 ==> has_whitespace(hex_spaced(bytes)),
        bytes.len() == 1 ==> hex_spaced(bytes) == hex2(bytes[0]),
        bytes.len() == 0 ==> hex_spaced(bytes).len() == 0,
    decreases bytes.len(),
{
    let pairs = Seq::new(bytes.len(), |i: int| hex2(bytes[i]));
    if bytes.len() == 0 {
        assert(tokens(hex_spaced(bytes)) =~= pairs);
    } else if bytes.len() == 1 {
        lemma_hex2_reads_back(bytes[0]);
        lemma_tokens_push_word(Seq::empty(), hex2(bytes[0]));
        assert(Seq::<char>::empty() + hex2(bytes[0]) =~= hex2(bytes[0]));
        assert(tokens(hex_spaced(bytes)) =~= pairs);
    } else {
        let front = bytes.drop_last();
        lemma_tokens_of_spaced_hex(front);
        lemma_hex2_reads_back(bytes.last());
        let x = hex_spaced(front);
        let p = x.push(' ');
        assert(x + seq![' '] =~= p);
        lemma_tokens_push_whitespace(x, ' ');
        lemma_tokens_push_word(p, hex2(bytes.last()));
        assert(hex_spaced(bytes) =~= p + hex2(bytes.last()));
        assert(is_whitespace(hex_spaced(bytes)[x.len() as int]));
        assert(tokens(hex_spaced(bytes)) =~= pairs) by {
            assert forall|i: int| 0 <= i < bytes.len() implies tokens(hex_spaced(bytes))[i]
                == pairs[i] by {
                if i < front.len() {
                    assert(front[i] == bytes[i]);
                }
            }
        }
    }
}

/// Packed hexadecimal pairs hold two digits for each byte, and nothing else.
pub proof fn lemma_packed_hex_pairs(bytes: Seq<u8>)
    ensures
        hex_packed(bytes).len() == 2 * bytes.len(),
        all_hex_digits(hex_packed(bytes)),
        forall|k: int|
            0 <= k < bytes.len() ==> #[trigger] hex_packed(bytes).subrange(2 * k, 2 * k + 2)
                == hex2(bytes[k]),
    decreases bytes.len(),
{
    if bytes.len() > 0 {
        let front = bytes.drop_last();
        lemma_packed_hex_pairs(front);
        lemma_hex2_reads_back(bytes.last());
        let s = hex_packed(bytes);
        assert(s =~= hex_packed(front) + hex2(bytes.last()));
        assert forall|i: int| 0 <= i < s.len() implies is_hex_digit(#[trigger] s[i]) by {
            if i < hex_packed(front).len() {
                assert(s[i] == hex_packed(front)[i]);
            } else {
                assert(s[i] == hex2(bytes.last())[i - hex_packed(front).len()]);
            }
        }
        assert forall|k: int| 0 <= k < bytes.len() implies #[trigger] s.subrange(2 * k, 2 * k + 2)
            == hex2(bytes[k]) by {
            if k < front.len() {
                assert(s.subrange(2 * k, 2 * k + 2) =~= hex_packed(front).subrange(
                    2 * k,
                    2 * k + 2,
                ));
                assert(front[k] == bytes[k]);
            } else {
                assert(s.subrange(2 * k, 2 * k + 2) =~= hex2(bytes.last()));
            }
        }
    }
}

/// A text of hexadecimal digits holds no whitespace.
pub proof fn lemma_hex_digits_hold_no_whitespace(s: Seq<char>)
    requires
        all_hex_digits(s),
    ensures
        !has_whitespace(s),
{
    if has_whitespace(s) {
        let i = choose|i: int| 0 <= i < s.len() && is_whitespace(#[trigger] s[i]);
        assert(is_hex_digit(s[i]));
    }
}

} // verus!
