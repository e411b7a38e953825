//! Character and string helpers shared by the other modules.
//!
//! Every function here is stated over `Seq<char>`, the view of `str` and
//! `String`.

use vstd::prelude::*;
use vstd::string::*;

verus! {

/// `String::push` of the standard library: the character is appended at the
/// end and nothing else changes.
pub assume_specification[ String::push ](s: &mut String, c: char)
    ensures
        final(s)@ == old(s)@.push(c),
;

/// Whether `c` has the Unicode property `White_Space`, as
/// `char::is_whitespace` of the standard library decides it.
pub uninterp spec fn is_whitespace(c: char) -> bool;

/// `char::is_whitespace` of the standard library. Its result depends on the
/// character alone; which characters count is left to the standard library.
pub assume_specification[ char::is_whitespace ](c: char) -> (r: bool)
    ensures
        r == is_whitespace(c),
;

/// The characters of `s` as a vector.
pub fn to_chars(s: &str) -> (r: Vec<char>)
    ensures
        r@ == s@,
{
    let mut r: Vec<char> = Vec::new();
    for c in it: s.chars()
        invariant
            it.seq() == s@,
            r@ == it.seq().take(it.index() as int),
    {
        r.push(c);
    }
    assert(r@ == s@);
    r
}

/// The string made of the characters `v[from..to]`.
pub(crate) fn from_chars(v: &Vec<char>, from: usize, to: usize) -> (r: String)
    requires
        from <= to <= v.len(),
    ensures
        r@ == v@.subrange(from as int, to as int),
{
    let mut r = String::new();
    let mut i: usize = from;
    while i < to
        invariant
            from <= i <= to <= v.len(),
            r@ == v@.subrange(from as int, i as int),
        decreases to - i,
    {
        r.push(v[i]);
        i += 1;
    }
    r
}

/// `n` copies of `c`.
pub open spec fn repeated(c: char, n: nat) -> Seq<char> {
    Seq::new(n, |i: int| c)
}

/// Appends `n` copies of `c` to `s`.
pub fn push_repeated(s: &mut String, c: char, n: usize)
    ensures
        final(s)@ == old(s)@ + repeated(c, n as nat),
{
    let mut i: usize = 0;
    while i < n
        invariant
            i <= n,
            s@ == old(s)@ + repeated(c, i as nat),
        decreases n - i,
    {
        s.push(c);
        i += 1;
        assert(s@ == old(s)@ + repeated(c, i as nat));
    }
}

/// A string of `n` copies of `c`.
pub fn repeat_char(c: char, n: usize) -> (r: String)
    ensures
        r@ == repeated(c, n as nat),
{
    let mut r = String::new();
    push_repeated(&mut r, c, n);
    assert(r@ == repeated(c, n as nat));
    r
}

/// `s` with spaces put in front of it until it has `width` characters; `s`
/// itself where it has that many already.
pub open spec fn pad_left_spec(s: Seq<char>, width: nat) -> Seq<char> {
    if s.len() >= width {
        s
    } else {
        repeated(' ', (width - s.len()) as nat) + s
    }
}

/// `s` with spaces put behind it until it has `width` characters; `s` itself
/// where it has that many already.
pub open spec fn pad_right_spec(s: Seq<char>, width: nat) -> Seq<char> {
    if s.len() >= width {
        s
    } else {
        s + repeated(' ', (width - s.len()) as nat)
    }
}

/// Right-aligns `s` in a field of `width` characters.
pub fn pad_left(s: &str, width: usize) -> (r: String)
    ensures
        r@ == pad_left_spec(s@, width as nat),
{
    let n = s.unicode_len();
    let mut r = String::new();
    if n < width {
        push_repeated(&mut r, ' ', width - n);
    }
    r.append(s);
    assert(r@ == pad_left_spec(s@, width as nat));
    r
}

/// Left-aligns `s` in a field of `width` characters.
pub fn pad_right(s: &str, width: usize) -> (r: String)
    ensures
        r@ == pad_right_spec(s@, width as nat),
{
    let n = s.unicode_len();
    let mut r = String::from_str(s);
    if n < width {
        push_repeated(&mut r, ' ', width - n);
    }
    r
}

/// The character that stands for the digit `d`.
pub open spec fn digit_char(d: int) -> char {
    if d == 0 {
        '0'
    } else if d == 1 {
        '1'
    } else if d == 2 {
        '2'
    } else if d == 3 {
        '3'
    } else if d == 4 {
        '4'
    } else if d == 5 {
        '5'
    } else if d == 6 {
        '6'
    } else if d == 7 {
        '7'
    } else if d == 8 {
        '8'
    } else {
        '9'
    }
}

/// The digit that `c` stands for; ten for a character that is no digit.
pub open spec fn digit_value(c: char) -> int {
    if c == '0' {
        0
    } else if c == '1' {
        1
    } else if c == '2' {
        2
    } else if c == '3' {
        3
    } else if c == '4' {
        4
    } else if c == '5' {
        5
    } else if c == '6' {
        6
    } else if c == '7' {
        7
    } else if c == '8' {
        8
    } else if c == '9' {
        9
    } else {
        10
    }
}

/// `n` written in base ten, without leading zeros.
pub open spec fn decimal(n: nat) -> Seq<char>
    decreases n,
{
    if n < 10 {
        seq![digit_char(n as int)]
    } else {
        decimal(n / 10).push(digit_char((n % 10) as int))
    }
}

/// The number that the digits `s` write in base ten.
pub open spec fn decimal_value(s: Seq<char>) -> nat
    decreases s.len(),
{
    if s.len() == 0 {
        0
    } else {
        (decimal_value(s.drop_last()) * 10 + digit_value(s.last())) as nat
    }
}

/// Reading back what `decimal` wrote gives the number again.
pub proof fn lemma_decimal_value(n: nat)
    ensures
        decimal_value(decimal(n)) == n,
        decimal(n).len() >= 1,
    decreases n,
{
    if n < 10 {
        let s = decimal(n);
        assert(s.drop_last() =~= Seq::<char>::empty());
        assert(decimal_value(s.drop_last()) == 0);
        assert(s.last() == digit_char(n as int));
    } else {
        lemma_decimal_value(n / 10);
        let s = decimal(n);
        assert(s.drop_last() =~= decimal(n / 10));
        assert(s.last() == digit_char((n % 10) as int));
    }
}

/// Two numbers with the same decimal form are the same number.
pub proof fn lemma_decimal_injective(a: nat, b: nat)
    requires
        decimal(a) == decimal(b),
    ensures
        a == b,
{
    lemma_decimal_value(a);
    lemma_decimal_value(b);
}

fn digit(d: u8) -> (c: char)
    requires
        d < 10,
    ensures
        c == digit_char(d as int),
{
    if d == 0 {
        '0'
    } else if d == 1 {
        '1'
    } else if d == 2 {
        '2'
    } else if d == 3 {
        '3'
    } else if d == 4 {
        '4'
    } else if d == 5 {
        '5'
    } else if d == 6 {
        '6'
    } else if d == 7 {
        '7'
    } else if d == 8 {
        '8'
    } else {
        '9'
    }
}

/// Appends `n` in base ten to `s`.
pub fn push_decimal(s: &mut String, n: u128)
    ensures
        final(s)@ == old(s)@ + decimal(n as nat),
    decreases n,
{
    if n < 10 {
        s.push(digit(n as u8));
        assert(s@ == old(s)@ + decimal(n as nat));
    } else {
        push_decimal(s, n / 10);
        s.push(digit((n % 10) as u8));
        assert(s@ == old(s)@ + decimal(n as nat));
    }
}

/// `n` in base ten.
pub fn decimal_string(n: u128) -> (r: String)
    ensures
        r@ == decimal(n as nat),
{
    let mut r = String::new();
    push_decimal(&mut r, n);
    assert(r@ == decimal(n as nat));
    r
}

/// Whether the place `i` is marked in `blank`. A place beyond its end is
/// not.
pub open spec fn marked(blank: Seq<bool>, i: int) -> bool {
    0 <= i < blank.len() && blank[i]
}

/// The first place from `i` on and below `n` that is not marked; `n` where
/// there is none.
pub open spec fn first_unmarked(blank: Seq<bool>, i: int, n: int) -> int
    decreases n - i,
{
    if i >= n {
        n
    } else if !marked(blank, i) {
        i
    } else {
        first_unmarked(blank, i + 1, n)
    }
}

/// The place behind the last place below `n` and from `i` on that is not
/// marked; `i` where there is none.
pub open spec fn unmarked_end(blank: Seq<bool>, i: int, n: int) -> int
    decreases n - i,
{
    if n <= i {
        i
    } else if !marked(blank, n - 1) {
        n
    } else {
        unmarked_end(blank, i, n - 1)
    }
}

/// `s` without the marked characters at its start and at its end: what
/// stands from the first unmarked character to the last.
pub open spec fn stripped(s: Seq<char>, blank: Seq<bool>) -> Seq<char> {
    let from = first_unmarked(blank, 0, s.len() as int);
    s.subrange(from, unmarked_end(blank, from, s.len() as int))
}

/// For each character of `s`, whether it is whitespace.
pub open spec fn whitespace_marks(s: Seq<char>) -> Seq<bool> {
    Seq::new(s.len(), |i: int| is_whitespace(s[i]))
}

/// `s` without the whitespace at its start and at its end.
pub open spec fn trim_spec(s: Seq<char>) -> Seq<char> {
    stripped(s, whitespace_marks(s))
}

/// The characters `chars` without those at the start and at the end that
/// `blank` marks.
pub fn strip_marked(chars: &Vec<char>, blank: &Vec<bool>) -> (r: String)
    ensures
        r@ == stripped(chars@, blank@),
{
    let n = chars.len();
    let mut start: usize = 0;
    while start < n && start < blank.len() && blank[start]
        invariant
            start <= n == chars.len(),
            first_unmarked(blank@, 0, n as int) == first_unmarked(blank@, start as int, n as int),
        decreases n - start,
    {
        start += 1;
    }
    let mut end: usize = n;
    while end > start && end - 1 < blank.len() && blank[end - 1]
        invariant
            start <= end <= n == chars.len(),
            unmarked_end(blank@, start as int, n as int) == unmarked_end(
                blank@,
                start as int,
                end as int,
            ),
        decreases end,
    {
        end -= 1;
    }
    from_chars(chars, start, end)
}

/// `s` without leading and trailing whitespace.
pub fn trim(s: &str) -> (r: String)
    ensures
        r@ == trim_spec(s@),
{
    let chars = to_chars(s);
    let mut blank: Vec<bool> = Vec::new();
    let mut i: usize = 0;
    while i < chars.len()
        invariant
            i <= chars.len(),
            blank@ == whitespace_marks(chars@.take(i as int)),
        decreases chars.len() - i,
    {
        blank.push(chars[i].is_whitespace());
        i += 1;
        assert(blank@ =~= whitespace_marks(chars@.take(i as int)));
    }
    assert(chars@.take(i as int) =~= s@);
    strip_marked(&chars, &blank)
}

/// `s` with `from` replaced by the characters `to`, every time it occurs.
pub open spec fn replace_char_spec(s: Seq<char>, from: char, to: Seq<char>) -> Seq<char>
    decreases s.len(),
{
    if s.len() == 0 {
        s
    } else if s.last() == from {
        replace_char_spec(s.drop_last(), from, to) + to
    } else {
        replace_char_spec(s.drop_last(), from, to).push(s.last())
    }
}

/// `s` with every line feed written as a backslash and the letter `n`.
pub open spec fn escape_newlines_spec(s: Seq<char>) -> Seq<char> {
    replace_char_spec(s, '\n', seq!['\\', 'n'])
}

/// `s` with every backslash doubled and every line feed written as a
/// backslash and the letter `n`, character by character.
pub open spec fn escape_raw_spec(s: Seq<char>) -> Seq<char>
    decreases s.len(),
{
    if s.len() == 0 {
        s
    } else if s.last() == '\n' {
        escape_raw_spec(s.drop_last()) + seq!['\\', 'n']
    } else if s.last() == '\\' {
        escape_raw_spec(s.drop_last()) + seq!['\\', '\\']
    } else {
        escape_raw_spec(s.drop_last()).push(s.last())
    }
}

/// Writes each line feed of `s` as the two characters `\n`, so that the
/// result stays on one line.
pub fn escape_newlines(s: &str) -> (r: String)
    ensures
        r@ == escape_newlines_spec(s@),
{
    let v = to_chars(s);
    let mut r = String::new();
    let mut i: usize = 0;
    while i < v.len()
        invariant
            i <= v.len(),
            v@ == s@,
            r@ == escape_newlines_spec(v@.take(i as int)),
        decreases v.len() - i,
    {
        let c = v[i];
        proof {
            let p = v@.take(i + 1);
            assert(p.drop_last() =~= v@.take(i as int));
            assert(p.last() == c);
        }
        if c == '\n' {
            r.push('\\');
            r.push('n');
            assert(r@ == escape_newlines_spec(v@.take(i + 1)));
        } else {
            r.push(c);
        }
        i += 1;
    }
    assert(v@.take(i as int) =~= s@);
    r
}

/// Doubles each backslash of `s` and writes each line feed as the two
/// characters `\n`, so that a shell can read the result back.
pub fn escape_raw(s: &str) -> (r: String)
    ensures
        r@ == escape_raw_spec(s@),
{
    let v = to_chars(s);
    let mut r = String::new();
    let mut i: usize = 0;
    while i < v.len()
        invariant
            i <= v.len(),
            v@ == s@,
            r@ == escape_raw_spec(v@.take(i as int)),
        decreases v.len() - i,
    {
        let c = v[i];
        proof {
            let p = v@.take(i + 1);
            assert(p.drop_last() =~= v@.take(i as int));
            assert(p.last() == c);
        }
        if c == '\n' {
            r.push('\\');
            r.push('n');
            assert(r@ == escape_raw_spec(v@.take(i + 1)));
        } else if c == '\\' {
            r.push('\\');
            r.push('\\');
            assert(r@ == escape_raw_spec(v@.take(i + 1)));
        } else {
            r.push(c);
        }
        i += 1;
    }
    assert(v@.take(i as int) =~= s@);
    r
}

/// The path of `name` below the directory `base`, as `Path::join` of the
/// standard library builds it on Unix: `name` alone where it starts at the
/// root, else `base`, one `/` unless `base` is empty or ends in one, and
/// `name`.
pub open spec fn join_path_spec(base: Seq<char>, name: Seq<char>) -> Seq<char> {
    if name.len() > 0 && name[0] == '/' {
        name
    } else if base.len() == 0 || base.last() == '/' {
        base + name
    } else {
        base.push('/') + name
    }
}

/// The path of `name` below the directory `base`.
pub fn join_path(base: &str, name: &str) -> (r: String)
    ensures
        r@ == join_path_spec(base@, name@),
{
    let n = name.unicode_len();
    if n > 0 && name.get_char(0) == '/' {
        return String::from_str(name);
    }
    let b = base.unicode_len();
    let mut r = String::from_str(base);
    if b > 0 && base.get_char(b - 1) != '/' {
        r.push('/');
    }
    r.append(name);
    r
}

} // verus!
