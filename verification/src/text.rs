use vstd::prelude::*;
use vstd::string::StringExecFns;

verus! {

/// The pieces of `s` between the occurrences of the delimiter `d`.  There is
/// always one piece more than there are delimiters; pieces may be empty.
pub open spec fn spec_split(s: Seq<char>, d: char) -> Seq<Seq<char>>
    decreases s.len(),
{
    if s.len() == 0 {
        seq![Seq::<char>::empty()]
    } else {
        let front = spec_split(s.drop_last(), d);
        if s.last() == d {
            front.push(Seq::<char>::empty())
        } else {
            front.drop_last().push(front.last().push(s.last()))
        }
    }
}

/// The pieces put together again, with the delimiter `d` between each two.
pub open spec fn spec_join(parts: Seq<Seq<char>>, d: char) -> Seq<char>
    decreases parts.len(),
{
    if parts.len() == 0 {
        Seq::<char>::empty()
    } else if parts.len() == 1 {
        parts[0]
    } else {
        spec_join(parts.drop_last(), d) + seq![d] + parts.last()
    }
}

/// Whether the delimiter `d` occurs in none of the pieces.
pub open spec fn spec_free_of(parts: Seq<Seq<char>>, d: char) -> bool {
    forall|k: int, i: int|
        0 <= k < parts.len() && 0 <= i < parts[k].len() ==> (#[trigger] parts[k][i]) != d
}

/// The contents of a list of character buffers.
pub open spec fn views(parts: Seq<Vec<char>>) -> Seq<Seq<char>> {
    Seq::new(parts.len(), |k: int| parts[k]@)
}

/// The value of a decimal digit.
pub open spec fn spec_dec_digit(c: char) -> Option<u8> {
    if '0' <= c <= '9' {
        Some((c as u32 - '0' as u32) as u8)
    } else {
        None
    }
}

/// The value of a hexadecimal digit, in either case.
pub open spec fn spec_hex_digit(c: char) -> Option<u8> {
    if '0' <= c <= '9' {
        Some((c as u32 - '0' as u32) as u8)
    } else if 'a' <= c <= 'f' {
        Some((c as u32 - 'a' as u32 + 10) as u8)
    } else if 'A' <= c <= 'F' {
        Some((c as u32 - 'A' as u32 + 10) as u8)
    } else {
        None
    }
}

/// The octet that one or two hexadecimal digits spell; nothing else spells
/// one.
pub open spec fn spec_hex_octet(s: Seq<char>) -> Option<u8> {
    if s.len() == 1 && spec_hex_digit(s[0]) is Some {
        spec_hex_digit(s[0])
    } else if s.len() == 2 && spec_hex_digit(s[0]) is Some && spec_hex_digit(s[1]) is Some {
        Some((16 * spec_hex_digit(s[0])->0 + spec_hex_digit(s[1])->0) as u8)
    } else {
        None
    }
}

/// Whether every character is a decimal digit.
pub open spec fn spec_all_digits(s: Seq<char>) -> bool {
    forall|i: int| 0 <= i < s.len() ==> spec_dec_digit(#[trigger] s[i]) is Some
}

/// The number that a run of decimal digits spells.
pub open spec fn spec_dec_value(s: Seq<char>) -> nat
    decreases s.len(),
{
    if s.len() == 0 {
        0
    } else {
        10 * spec_dec_value(s.drop_last()) + match spec_dec_digit(s.last()) {
            Some(v) => v as nat,
            None => 0,
        }
    }
}

/// The octet that a decimal numeral spells: an optional `+`, then one or
/// more decimal digits whose value is at most 255.
pub open spec fn spec_dec_octet(s: Seq<char>) -> Option<u8> {
    let digits = if s.len() > 0 && s[0] == '+' {
        s.skip(1)
    } else {
        s
    };
    if digits.len() > 0 && spec_all_digits(digits) && spec_dec_value(digits) <= 255 {
        Some(spec_dec_value(digits) as u8)
    } else {
        None
    }
}

/// The upper-case hexadecimal digit of a value below 16.
pub open spec fn spec_hex_char(v: u8) -> char {
    if v < 10 {
        ('0' as u32 + v as u32) as char
    } else {
        ('A' as u32 + (v as u32 - 10)) as char
    }
}

/// The decimal digit of a value below 10.
pub open spec fn spec_dec_char(v: u8) -> char {
    ('0' as u32 + v as u32) as char
}

/// An octet as two upper-case hexadecimal digits.
pub open spec fn spec_hex_pair(b: u8) -> Seq<char> {
    seq![spec_hex_char(b / 16), spec_hex_char(b % 16)]
}

/// An octet as a decimal numeral without leading zeros.
pub open spec fn spec_dec_text(b: u8) -> Seq<char> {
    if b >= 100 {
        seq![spec_dec_char(b / 100), spec_dec_char(b / 10 % 10), spec_dec_char(b % 10)]
    } else if b >= 10 {
        seq![spec_dec_char(b / 10), spec_dec_char(b % 10)]
    } else {
        seq![spec_dec_char(b)]
    }
}

/// A text without the delimiter is a single piece.
pub proof fn lemma_split_none(s: Seq<char>, d: char)
    requires
        forall|i: int| 0 <= i < s.len() ==> s[i] != d,
    ensures
        spec_split(s, d) == seq![s],
    decreases s.len(),
{
    if s.len() == 0 {
        assert(s =~= Seq::<char>::empty());
    } else {
        lemma_split_none(s.drop_last(), d);
        let front = spec_split(s.drop_last(), d);
        assert(front.last().push(s.last()) =~= s);
        assert(front.drop_last().push(s) =~= seq![s]);
    }
}

/// Two texts joined by the delimiter split into the pieces of the first
/// followed by the pieces of the second.
pub proof fn lemma_split_join(a: Seq<char>, b: Seq<char>, d: char)
    ensures
        spec_split(a + seq![d] + b, d) == spec_split(a, d) + spec_split(b, d),
        spec_split(a, d).len() >= 1,
    decreases b.len(),
{
    let s = a + seq![d] + b;
    lemma_split_len(a, d);
    if b.len() == 0 {
        assert(s.drop_last() =~= a);
        assert(spec_split(a, d).push(Seq::<char>::empty()) =~= spec_split(a, d) + spec_split(
            b,
            d,
        ));
    } else {
        lemma_split_join(a, b.drop_last(), d);
        lemma_split_len(b.drop_last(), d);
        assert(s.drop_last() =~= a + seq![d] + b.drop_last());
        assert(s.last() == b.last());
        let fa = spec_split(a, d);
        let fb = spec_split(b.drop_last(), d);
        let front = spec_split(s.drop_last(), d);
        assert(front == fa + fb);
        if b.last() == d {
            assert(front.push(Seq::<char>::empty()) =~= fa + fb.push(Seq::<char>::empty()));
        } else {
            assert(front.last() == fb.last());
            assert(front.drop_last() =~= fa + fb.drop_last());
            assert(front.drop_last().push(front.last().push(s.last())) =~= fa
                + fb.drop_last().push(fb.last().push(b.last())));
        }
    }
}

/// Splitting loses nothing: the pieces of a text hold no delimiter, and
/// joined by the delimiter they are the text.
pub proof fn lemma_join_of_split(s: Seq<char>, d: char)
    ensures
        spec_split(s, d).len() >= 1,
        spec_free_of(spec_split(s, d), d),
        spec_join(spec_split(s, d), d) == s,
    decreases s.len(),
{
    let parts = spec_split(s, d);
    if s.len() == 0 {
        assert(spec_join(parts, d) =~= s);
    } else {
        let front = spec_split(s.drop_last(), d);
        lemma_join_of_split(s.drop_last(), d);
        let c = s.last();
        if c == d {
            assert(parts.drop_last() =~= front);
            assert(spec_join(parts, d) =~= s.drop_last() + seq![d]);
            assert(s.drop_last() + seq![d] =~= s);
        } else {
            let grown = front.last().push(c);
            assert(parts.last() == grown);
            assert(parts.drop_last() =~= front.drop_last());
            if front.len() == 1 {
                assert(spec_join(front, d) == front[0]);
                assert(spec_join(parts, d) =~= s.drop_last().push(c));
            } else {
                assert(spec_join(parts, d) =~= (spec_join(front.drop_last(), d) + seq![d]
                    + front.last()).push(c));
            }
            assert(s.drop_last().push(c) =~= s);
        }
        assert forall|k: int, i: int|
            0 <= k < parts.len() && 0 <= i < parts[k].len() implies (#[trigger] parts[k][i])
            != d by {
            if k < parts.len() - 1 {
                assert(parts[k] == front[k]);
            } else if c != d {
                if i < front.last().len() {
                    assert(parts[k][i] == front.last()[i]);
                }
            }
        }
    }
}

/// Splitting is the inverse of joining: pieces that hold no delimiter are
/// the pieces of their join.
pub proof fn lemma_split_of_join(parts: Seq<Seq<char>>, d: char)
    requires
        parts.len() >= 1,
        spec_free_of(parts, d),
    ensures
        spec_split(spec_join(parts, d), d) == parts,
    decreases parts.len(),
{
    let last = parts.last();
    assert forall|i: int| 0 <= i < last.len() implies last[i] != d by {
        assert(parts[parts.len() - 1][i] != d);
    }
    lemma_split_none(last, d);
    if parts.len() == 1 {
        assert(parts =~= seq![last]);
    } else {
        let init = parts.drop_last();
        assert forall|k: int, i: int|
            0 <= k < init.len() && 0 <= i < init[k].len() implies (#[trigger] init[k][i]) != d by {
            assert(parts[k][i] != d);
        }
        lemma_split_of_join(init, d);
        lemma_split_join(spec_join(init, d), last, d);
        assert(init + seq![last] =~= parts);
    }
}

/// A text has at least one piece.
pub proof fn lemma_split_len(s: Seq<char>, d: char)
    ensures
        spec_split(s, d).len() >= 1,
    decreases s.len(),
{
    if s.len() > 0 {
        lemma_split_len(s.drop_last(), d);
    }
}

/// The two digits of an octet spell it, and neither is a `-`, a `:` or a `.`.
pub proof fn lemma_hex_pair(b: u8)
    ensures
        spec_hex_octet(spec_hex_pair(b)) == Some(b),
        spec_hex_pair(b).len() == 2,
        forall|i: int|
            0 <= i < 2 ==> (#[trigger] spec_hex_pair(b)[i]) != '-' && spec_hex_pair(b)[i] != ':'
                && spec_hex_pair(b)[i] != '.',
{
    lemma_hex_char(b / 16);
    lemma_hex_char(b % 16);
}

/// The digit of a value below 16 has that value.
pub proof fn lemma_hex_char(v: u8)
    requires
        v < 16,
    ensures
        spec_hex_digit(spec_hex_char(v)) == Some(v),
        spec_hex_char(v) != '-',
        spec_hex_char(v) != ':',
        spec_hex_char(v) != '.',
{
}

/// The decimal numeral of an octet spells it, and holds digits only.
pub proof fn lemma_dec_text(b: u8)
    ensures
        spec_dec_octet(spec_dec_text(b)) == Some(b),
        1 <= spec_dec_text(b).len() <= 3,
        spec_all_digits(spec_dec_text(b)),
        forall|i: int| 0 <= i < spec_dec_text(b).len() ==> spec_dec_text(b)[i] != '.',
{
    let t = spec_dec_text(b);
    assert(spec_all_digits(t));
    assert(t[0] != '+');
    reveal_with_fuel(spec_dec_value, 4);
    if b >= 100 {
        assert(t.drop_last() =~= seq![spec_dec_char(b / 100), spec_dec_char(b / 10 % 10)]);
        assert(t.drop_last().drop_last() =~= seq![spec_dec_char(b / 100)]);
        assert(t.drop_last().drop_last().drop_last() =~= Seq::<char>::empty());
        assert(spec_dec_value(t) == b);
    } else if b >= 10 {
        assert(t.drop_last() =~= seq![spec_dec_char(b / 10)]);
        assert(t.drop_last().drop_last() =~= Seq::<char>::empty());
        assert(spec_dec_value(t) == b);
    } else {
        assert(t.drop_last() =~= Seq::<char>::empty());
        assert(spec_dec_value(t) == b);
    }
}

/// The characters of a string, in order.
pub fn chars_of(s: &str) -> (r: Vec<char>)
    ensures
        r@ == s@,
{
    let mut out: Vec<char> = Vec::new();
    for c in it: s.chars()
        invariant
            it.seq() == s@,
            out@ == it.seq().take(it.index()),
    {
        out.push(c);
        assert(out@ =~= it.seq().take(it.index() + 1));
    }
    assert(out@ =~= s@);
    out
}

/// Cuts a text at every occurrence of the delimiter.
pub fn split(chars: &[char], d: char) -> (r: Vec<Vec<char>>)
    ensures
        views(r@) == spec_split(chars@, d),
{
    let mut parts: Vec<Vec<char>> = Vec::new();
    let mut current: Vec<char> = Vec::new();
    let mut i: usize = 0;
    assert(views(parts@).push(current@) =~= spec_split(chars@.take(0), d));
    while i < chars.len()
        invariant
            i <= chars.len(),
            views(parts@).push(current@) == spec_split(chars@.take(i as int), d),
        decreases chars.len() - i,
    {
        let c = chars[i];
        let ghost before = views(parts@).push(current@);
        let ghost prefix = chars@.take(i as int + 1);
        assert(prefix.drop_last() =~= chars@.take(i as int));
        assert(prefix.last() == c);
        if c == d {
            parts.push(current);
            current = Vec::new();
            assert(views(parts@).push(current@) =~= before.push(Seq::<char>::empty()));
        } else {
            current.push(c);
            assert(views(parts@).push(current@) =~= before.drop_last().push(
                before.last().push(c),
            ));
        }
        i += 1;
    }
    assert(chars@.take(i as int) =~= chars@);
    let ghost before = views(parts@).push(current@);
    parts.push(current);
    assert(views(parts@) =~= before);
    parts
}

/// Reads one hexadecimal digit.
pub fn hex_digit(c: char) -> (r: Option<u8>)
    ensures
        r == spec_hex_digit(c),
{
    if '0' <= c && c <= '9' {
        Some((c as u32 - '0' as u32) as u8)
    } else if 'a' <= c && c <= 'f' {
        Some((c as u32 - 'a' as u32 + 10) as u8)
    } else if 'A' <= c && c <= 'F' {
        Some((c as u32 - 'A' as u32 + 10) as u8)
    } else {
        None
    }
}

/// Reads an octet written as one or two hexadecimal digits.
pub fn hex_octet(s: &[char]) -> (r: Option<u8>)
    ensures
        r == spec_hex_octet(s@),
{
    if s.len() == 1 {
        hex_digit(s[0])
    } else if s.len() == 2 {
        match (hex_digit(s[0]), hex_digit(s[1])) {
            (Some(high), Some(low)) => Some(16 * high + low),
            _ => None,
        }
    } else {
        None
    }
}

/// Reads an octet written as a decimal numeral: an optional `+`, then one or
/// more digits whose value is at most 255.
pub fn dec_octet(s: &[char]) -> (r: Option<u8>)
    ensures
        r == spec_dec_octet(s@),
{
    let start: usize = if s.len() > 0 && s[0] == '+' {
        1
    } else {
        0
    };
    let ghost digits = s@.skip(start as int);
    assert(s@.skip(0) =~= s@);
    if s.len() == start {
        return None;
    }
    // The value read so far, or 256 for every value above 255.
    let mut value: u32 = 0;
    let mut i: usize = start;
    assert(digits.take(0) =~= Seq::<char>::empty());
    while i < s.len()
        invariant
            start <= i <= s.len(),
            digits == s@.skip(start as int),
            digits == if s@.len() > 0 && s@[0] == '+' {
                s@.skip(1)
            } else {
                s@
            },
            spec_all_digits(digits.take(i - start)),
            value <= 256,
            value == if spec_dec_value(digits.take(i - start)) <= 255 {
                spec_dec_value(digits.take(i - start))
            } else {
                256
            },
        decreases s.len() - i,
    {
        let c = s[i];
        let ghost prefix = digits.take(i - start + 1);
        assert(prefix.drop_last() =~= digits.take(i - start));
        assert(prefix.last() == c);
        if '0' <= c && c <= '9' {
            let digit: u32 = c as u32 - '0' as u32;
            value = value * 10 + digit;
            if value > 256 {
                value = 256;
            }
            assert forall|k: int| 0 <= k < prefix.len() implies spec_dec_digit(
                #[trigger] prefix[k],
            ) is Some by {
                if k < prefix.len() - 1 {
                    assert(prefix[k] == digits.take(i - start)[k]);
                }
            }
        } else {
            assert(digits[i - start] == c);
            assert(!spec_all_digits(digits));
            return None;
        }
        i += 1;
    }
    assert(digits.take(i - start) =~= digits);
    if value <= 255 {
        Some(value as u8)
    } else {
        None
    }
}

/// The upper-case hexadecimal digit of a value below 16, as text.
fn digit_str(v: u8) -> (r: &'static str)
    requires
        v < 16,
    ensures
        r@ == seq![spec_hex_char(v)],
{
    proof {
        reveal_strlit("0");
        reveal_strlit("1");
        reveal_strlit("2");
        reveal_strlit("3");
        reveal_strlit("4");
        reveal_strlit("5");
        reveal_strlit("6");
        reveal_strlit("7");
        reveal_strlit("8");
        reveal_strlit("9");
        reveal_strlit("A");
        reveal_strlit("B");
        reveal_strlit("C");
        reveal_strlit("D");
        reveal_strlit("E");
        reveal_strlit("F");
    }
    let r = match v {
        0 => "0",
        1 => "1",
        2 => "2",
        3 => "3",
        4 => "4",
        5 => "5",
        6 => "6",
        7 => "7",
        8 => "8",
        9 => "9",
        10 => "A",
        11 => "B",
        12 => "C",
        13 => "D",
        14 => "E",
        _ => "F",
    };
    assert(r@ =~= seq![spec_hex_char(v)]);
    r
}

/// Appends an octet as two upper-case hexadecimal digits.
pub fn push_hex_pair(out: &mut String, b: u8)
    ensures
        final(out)@ == old(out)@ + spec_hex_pair(b),
{
    out.append(digit_str(b / 16));
    out.append(digit_str(b % 16));
    assert(out@ =~= old(out)@ + spec_hex_pair(b));
}

/// Appends an octet as a decimal numeral without leading zeros.
pub fn push_dec(out: &mut String, b: u8)
    ensures
        final(out)@ == old(out)@ + spec_dec_text(b),
{
    if b >= 100 {
        out.append(digit_str(b / 100));
    }
    if b >= 10 {
        out.append(digit_str(b / 10 % 10));
    }
    out.append(digit_str(b % 10));
    assert(out@ =~= old(out)@ + spec_dec_text(b));
}

} // verus!
