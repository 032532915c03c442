//! Words, numbers and case-insensitive names in command lines, and the text of numbers.

use vstd::prelude::*;

verus! {

/// Whether `c` is white space by Unicode's White_Space property, as `char::is_whitespace` says.
pub open spec fn white_space(c: char) -> bool {
    let u = c as u32;
    ||| 0x09 <= u <= 0x0d
    ||| u == 0x20
    ||| u == 0x85
    ||| u == 0xa0
    ||| u == 0x1680
    ||| 0x2000 <= u <= 0x200a
    ||| u == 0x2028
    ||| u == 0x2029
    ||| u == 0x202f
    ||| u == 0x205f
    ||| u == 0x3000
}

/// Whether `c` is white space.
pub fn is_white(c: char) -> (r: bool)
    ensures
        r == white_space(c),
{
    let u = c as u32;
    (0x09 <= u && u <= 0x0d) || u == 0x20 || u == 0x85 || u == 0xa0 || u == 0x1680 || (0x2000
        <= u && u <= 0x200a) || u == 0x2028 || u == 0x2029 || u == 0x202f || u == 0x205f || u
        == 0x3000
}

/// Reading `s` from its start: the words completed so far, and the word under way.
pub open spec fn scan_words(s: Seq<char>) -> (Seq<Seq<char>>, Seq<char>)
    decreases s.len(),
{
    if s.len() == 0 {
        (seq![], seq![])
    } else {
        let (done, current) = scan_words(s.drop_last());
        if white_space(s.last()) {
            if current.len() > 0 {
                (done.push(current), seq![])
            } else {
                (done, current)
            }
        } else {
            (done, current.push(s.last()))
        }
    }
}

/// The words of `s`: its maximal runs of characters that are not white space, in order.
pub open spec fn words_of(s: Seq<char>) -> Seq<Seq<char>> {
    let (done, current) = scan_words(s);
    if current.len() > 0 {
        done.push(current)
    } else {
        done
    }
}

/// Reading on after a point where no word is under way adds the words of what follows to those
/// already read.
proof fn lemma_scan_after_break(p: Seq<char>, x: Seq<char>)
    requires
        scan_words(p).1.len() == 0,
    ensures
        scan_words(p + x) == (scan_words(p).0 + scan_words(x).0, scan_words(x).1),
    decreases x.len(),
{
    if x.len() == 0 {
        assert(p + x == p);
        assert(scan_words(p).0 + Seq::<Seq<char>>::empty() == scan_words(p).0);
    } else {
        assert((p + x).drop_last() == p + x.drop_last());
        assert((p + x).last() == x.last());
        lemma_scan_after_break(p, x.drop_last());
        let done = scan_words(p).0;
        let (d, c) = scan_words(x.drop_last());
        assert((done + d).push(c) == done + d.push(c));
    }
}

/// A word with no white space in it, read alone, is the word under way.
proof fn lemma_scan_single_word(t: Seq<char>)
    requires
        forall|j: int| 0 <= j < t.len() ==> !white_space(#[trigger] t[j]),
    ensures
        scan_words(t) == (Seq::<Seq<char>>::empty(), t),
    decreases t.len(),
{
    if t.len() > 0 {
        lemma_scan_single_word(t.drop_last());
        assert(t.drop_last().push(t.last()) == t);
    }
}

/// A word without white space, then one white-space character, then a line: its words are that
/// word and then the words of the line.
pub proof fn lemma_words_after_word(t: Seq<char>, gap: char, line: Seq<char>)
    requires
        t.len() > 0,
        forall|j: int| 0 <= j < t.len() ==> !white_space(#[trigger] t[j]),
        white_space(gap),
    ensures
        words_of(t + seq![gap] + line) == seq![t] + words_of(line),
{
    lemma_scan_single_word(t);
    let p = t + seq![gap];
    assert(p.drop_last() == t);
    assert(scan_words(p) == (seq![t], Seq::<char>::empty()));
    lemma_scan_after_break(p, line);
    let (d, c) = scan_words(line);
    assert((seq![t] + d).push(c) == seq![t] + d.push(c));
}

/// The texts of a list of string slices.
pub open spec fn texts(tokens: Seq<&str>) -> Seq<Seq<char>> {
    tokens.map_values(|t: &str| t@)
}

/// Splits `line` into its words, as `str::split_whitespace` does.
pub fn split_words(line: &str) -> (tokens: Vec<&str>)
    ensures
        texts(tokens@) == words_of(line@),
{
    let n = line.unicode_len();
    let mut tokens: Vec<&str> = Vec::new();
    let mut start: usize = 0;
    let mut i: usize = 0;
    while i < n
        invariant
            n == line@.len(),
            start <= i <= n,
            texts(tokens@) == scan_words(line@.take(i as int)).0,
            line@.subrange(start as int, i as int) == scan_words(line@.take(i as int)).1,
        decreases n - i,
    {
        let c = line.get_char(i);
        assert(line@.take(i + 1).drop_last() == line@.take(i as int));
        if is_white(c) {
            if start < i {
                let word = line.substring_char(start, i);
                tokens.push(word);
                assert(texts(tokens@) == scan_words(line@.take(i as int)).0.push(word@));
            }
            start = i + 1;
        } else {
            assert(line@.subrange(start as int, i + 1) == line@.subrange(start as int, i as int).push(c));
        }
        i = i + 1;
    }
    assert(line@.take(n as int) == line@);
    if start < n {
        let word = line.substring_char(start, n);
        tokens.push(word);
        assert(texts(tokens@) == scan_words(line@).0.push(word@));
    }
    tokens
}

/// Whether two texts are the same.
pub fn same_text(a: &str, b: &str) -> (r: bool)
    ensures
        r == (a@ == b@),
{
    let n = a.unicode_len();
    if n != b.unicode_len() {
        return false;
    }
    let mut i: usize = 0;
    while i < n
        invariant
            n == a@.len(),
            n == b@.len(),
            i <= n,
            forall|j: int| 0 <= j < i ==> a@[j] == b@[j],
        decreases n - i,
    {
        if a.get_char(i) != b.get_char(i) {
            return false;
        }
        i = i + 1;
    }
    assert(a@ == b@);
    true
}

/// The code of `c`, with the ASCII capitals `A` to `Z` taken to their small letters.
pub open spec fn folded(c: char) -> u32 {
    let u = c as u32;
    if 0x41 <= u <= 0x5a {
        (u + 0x20) as u32
    } else {
        u
    }
}

/// Whether `a` and `b` are the same text when ASCII letters are compared without case, as
/// `str::eq_ignore_ascii_case` says.
pub open spec fn same_ignoring_ascii_case(a: Seq<char>, b: Seq<char>) -> bool {
    a.len() == b.len() && forall|j: int| 0 <= j < a.len() ==> folded(a[j]) == folded(b[j])
}

fn fold(c: char) -> (u: u32)
    ensures
        u == folded(c),
{
    let u = c as u32;
    if 0x41 <= u && u <= 0x5a {
        u + 0x20
    } else {
        u
    }
}

/// Compares `a` and `b` with ASCII letters taken without case.
pub fn eq_ignore_ascii_case(a: &str, b: &str) -> (r: bool)
    ensures
        r == same_ignoring_ascii_case(a@, b@),
{
    let n = a.unicode_len();
    if n != b.unicode_len() {
        return false;
    }
    let mut i: usize = 0;
    while i < n
        invariant
            n == a@.len(),
            n == b@.len(),
            i <= n,
            forall|j: int| 0 <= j < i ==> folded(a@[j]) == folded(b@[j]),
        decreases n - i,
    {
        if fold(a.get_char(i)) != fold(b.get_char(i)) {
            return false;
        }
        i = i + 1;
    }
    true
}

/// The value of a decimal digit.
pub open spec fn digit_value(c: char) -> nat {
    (c as u32 - '0' as u32) as nat
}

/// Whether every character of `s` is a decimal digit.
pub open spec fn all_digits(s: Seq<char>) -> bool {
    forall|j: int| 0 <= j < s.len() ==> '0' <= #[trigger] s[j] <= '9'
}

/// The number that the decimal digits `s` write.
pub open spec fn digits_value(s: Seq<char>) -> nat
    decreases s.len(),
{
    if s.len() == 0 {
        0
    } else {
        digits_value(s.drop_last()) * 10 + digit_value(s.last())
    }
}

/// The number that `s` writes for an unsigned integer type whose largest value is `max`, as
/// `str::parse` reads it: an optional `+`, then one decimal digit or more, and no more than
/// `max`.
pub open spec fn unsigned_of(s: Seq<char>, max: nat) -> Option<nat> {
    let digits = if s.len() > 0 && s[0] == '+' {
        s.drop_first()
    } else {
        s
    };
    if digits.len() > 0 && all_digits(digits) && digits_value(digits) <= max {
        Some(digits_value(digits))
    } else {
        None
    }
}

/// Reads an unsigned integer no larger than `max`, as `str::parse` does for the unsigned
/// integer type whose largest value is `max`.
pub fn parse_unsigned(s: &str, max: u64) -> (r: Option<u64>)
    ensures
        r matches Some(v) ==> unsigned_of(s@, max as nat) == Some(v as nat),
        r is None ==> unsigned_of(s@, max as nat) is None,
{
    let n = s.unicode_len();
    let mut i: usize = 0;
    if n > 0 && s.get_char(0) == '+' {
        i = 1;
    }
    let ghost digits = if s@.len() > 0 && s@[0] == '+' {
        s@.drop_first()
    } else {
        s@
    };
    assert(digits == s@.subrange(i as int, n as int));
    if i == n {
        return None;
    }
    let start = i;
    let mut value: u64 = 0;
    while i < n
        invariant
            n == s@.len(),
            start <= i <= n,
            digits == s@.subrange(start as int, n as int),
            digits == (if s@.len() > 0 && s@[0] == '+' {
                s@.drop_first()
            } else {
                s@
            }),
            all_digits(s@.subrange(start as int, i as int)),
            value == digits_value(s@.subrange(start as int, i as int)),
            value <= max,
        decreases n - i,
    {
        let c = s.get_char(i);
        let ghost before = s@.subrange(start as int, i as int);
        let ghost after = s@.subrange(start as int, i + 1);
        assert(after.drop_last() == before);
        if c < '0' || '9' < c {
            assert(!all_digits(digits)) by {
                assert(digits[i - start] == c);
            }
            assert(unsigned_of(s@, max as nat) is None);
            return None;
        }
        let d = (c as u32 - '0' as u32) as u64;
        if d > max || value > (max - d) / 10 {
            proof {
                if all_digits(digits) {
                    lemma_digits_value_grows(digits, (i - start) as int + 1);
                }
                assert(digits.subrange(0, (i - start) + 1) == after);
                assert(value * 10 + d > max) by (nonlinear_arith)
                    requires
                        d > max || value > (max - d) / 10,
                        value >= 0,
                ;
            }
            assert(unsigned_of(s@, max as nat) is None);
            return None;
        }
        assert(value * 10 + d <= max) by (nonlinear_arith)
            requires
                value <= (max - d) / 10,
                d <= max,
        ;
        value = value * 10 + d;
        i = i + 1;
    }
    Some(value)
}

/// The value of the first `k` digits of a run of digits is no more than the value of the run.
proof fn lemma_digits_value_grows(s: Seq<char>, k: int)
    requires
        0 <= k <= s.len(),
        all_digits(s),
    ensures
        digits_value(s.subrange(0, k)) <= digits_value(s),
    decreases s.len() - k,
{
    if k < s.len() {
        lemma_digits_value_grows(s, k + 1);
        let t = s.subrange(0, k + 1);
        assert(t.drop_last() == s.subrange(0, k));
        assert(digits_value(t) == digits_value(s.subrange(0, k)) * 10 + digit_value(t.last()));
        assert(digits_value(s.subrange(0, k)) <= digits_value(t)) by (nonlinear_arith)
            requires
                digits_value(t) == digits_value(s.subrange(0, k)) * 10 + digit_value(t.last()),
        ;
    } else {
        assert(s.subrange(0, k) == s);
    }
}

/// The character of the decimal digit `d`.
pub open spec fn digit_char(d: nat) -> char {
    (('0' as u32) + d) as char
}

/// The decimal digits of `n`, with no leading zero, as `Display` writes an unsigned integer.
pub open spec fn decimal(n: nat) -> Seq<char>
    decreases n,
{
    if n < 10 {
        seq![digit_char(n)]
    } else {
        decimal(n / 10).push(digit_char(n % 10))
    }
}

/// The text of the integer `n`, as `Display` writes a signed integer.
pub open spec fn signed_decimal(n: int) -> Seq<char> {
    if n < 0 {
        seq!['-'] + decimal((-n) as nat)
    } else {
        decimal(n as nat)
    }
}

/// Appends the decimal digits of `n` to `out`.
pub fn push_decimal(out: &mut String, n: u128)
    ensures
        final(out)@ == old(out)@ + decimal(n as nat),
    decreases n,
{
    if n >= 10 {
        push_decimal(out, n / 10);
    }
    let d = (n % 10) as usize;
    let digits = "0123456789";
    proof {
        reveal_strlit("0123456789");
    }
    let digit = digits.substring_char(d, d + 1);
    assert(digit@ == seq![digit_char(d as nat)]);
    out.append(digit);
}

/// Appends the text of `n` to `out`.
pub fn push_signed(out: &mut String, n: i64)
    ensures
        final(out)@ == old(out)@ + signed_decimal(n as int),
{
    if n < 0 {
        out.append("-");
        proof {
            reveal_strlit("-");
        }
        let magnitude: u128 = (0 - (n as i128)) as u128;
        push_decimal(out, magnitude);
    } else {
        push_decimal(out, n as u128);
    }
}

/// Words joined by single spaces, as `join(" ")` writes them.
pub open spec fn joined(words: Seq<Seq<char>>) -> Seq<char>
    decreases words.len(),
{
    if words.len() == 0 {
        seq![]
    } else if words.len() == 1 {
        words[0]
    } else {
        joined(words.drop_last()) + seq![' '] + words.last()
    }
}

/// The words `tokens[from..to]` joined by single spaces.
pub fn join_words(tokens: &[&str], from: usize, to: usize) -> (r: String)
    requires
        from <= to <= tokens@.len(),
    ensures
        r@ == joined(texts(tokens@).subrange(from as int, to as int)),
{
    let mut r = String::new();
    let mut i = from;
    while i < to
        invariant
            from <= i <= to <= tokens@.len(),
            r@ == joined(texts(tokens@).subrange(from as int, i as int)),
        decreases to - i,
    {
        let ghost before = texts(tokens@).subrange(from as int, i as int);
        let ghost after = texts(tokens@).subrange(from as int, i + 1);
        assert(after.drop_last() == before);
        assert(after.last() == tokens@[i as int]@);
        proof {
            reveal_strlit(" ");
        }
        if i > from {
            r.append(" ");
        }
        r.append(tokens[i]);
        i = i + 1;
    }
    r
}

} // verus!
