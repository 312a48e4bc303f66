//! Text as sequences of characters: decimal numerals, white space, lines.

use vstd::prelude::*;

verus! {

/// `String::push` appends the given character to the end of the string.
pub assume_specification[ String::push ](s: &mut String, c: char)
    ensures
        final(s)@ == old(s)@.push(c),
;

/// The decimal digit for a value below ten.
pub open spec fn digit_char(d: int) -> char
    recommends
        0 <= d < 10,
{
    (48 + d) as char
}

/// Whether `c` is one of the ten decimal digits.
pub open spec fn is_digit(c: char) -> bool {
    48 <= c as int <= 57
}

/// The decimal numeral of `n`, most significant digit first, without leading zeros.
pub open spec fn decimal(n: nat) -> Seq<char>
    decreases n,
{
    if n < 10 {
        seq![digit_char(n as int)]
    } else {
        decimal(n / 10).push(digit_char((n % 10) as int))
    }
}

/// The numerals of numbers below one thousand, digit by digit.
pub proof fn lemma_decimal_small(n: nat)
    requires
        n < 1000,
    ensures
        n < 10 ==> decimal(n) == seq![digit_char(n as int)],
        10 <= n < 100 ==> decimal(n) == seq![
            digit_char((n / 10) as int),
            digit_char((n % 10) as int),
        ],
        100 <= n ==> decimal(n) == seq![
            digit_char((n / 100) as int),
            digit_char((n / 10 % 10) as int),
            digit_char((n % 10) as int),
        ],
{
    reveal_with_fuel(decimal, 3);
    if 100 <= n {
        assert(n / 10 / 10 == n / 100);
        assert(decimal(n) =~= seq![
            digit_char((n / 100) as int),
            digit_char((n / 10 % 10) as int),
            digit_char((n % 10) as int),
        ]);
    } else if 10 <= n {
        assert(decimal(n) =~= seq![digit_char((n / 10) as int), digit_char((n % 10) as int)]);
    }
}

/// Appends the decimal numeral of `n` to `s`.
pub fn push_decimal(s: &mut String, n: u64)
    ensures
        final(s)@ == old(s)@ + decimal(n as nat),
    decreases n,
{
    if n >= 10 {
        push_decimal(s, n / 10);
    }
    let d: u8 = (n % 10) as u8;
    s.push((48u8 + d) as char);
    assert(s@ =~= old(s)@ + decimal(n as nat));
}

/// The characters of a string, in order.
pub fn chars_of(s: &str) -> (cs: Vec<char>)
    ensures
        cs@ == s@,
{
    let mut cs: Vec<char> = Vec::new();
    for c in it: s.chars()
        invariant
            cs@ == it.seq().take(it.index() as int),
            it.seq() == s@,
    {
        cs.push(c);
    }
    cs
}

/// The string made of the characters `cs[from..to]`.
pub fn string_of(cs: &Vec<char>, from: usize, to: usize) -> (s: String)
    requires
        from <= to <= cs@.len(),
    ensures
        s@ == cs@.subrange(from as int, to as int),
{
    let mut s = String::new();
    let mut i: usize = from;
    while i < to
        invariant
            from <= i <= to <= cs@.len(),
            s@ == cs@.subrange(from as int, i as int),
        decreases to - i,
    {
        s.push(cs[i]);
        i += 1;
        assert(s@ =~= cs@.subrange(from as int, i as int));
    }
    s
}

/// Whether `c` has the Unicode property `White_Space`.
pub open spec fn is_white(c: char) -> bool {
    let n = c as int;
    ||| 0x9 <= n <= 0xd
    ||| n == 0x20
    ||| n == 0x85
    ||| n == 0xa0
    ||| n == 0x1680
    ||| 0x2000 <= n <= 0x200a
    ||| n == 0x2028
    ||| n == 0x2029
    ||| n == 0x202f
    ||| n == 0x205f
    ||| n == 0x3000
}

/// Whether `c` is a white-space character.
pub fn is_white_space(c: char) -> (r: bool)
    ensures
        r == is_white(c),
{
    let n: u32 = c as u32;
    (0x9 <= n && n <= 0xd) || n == 0x20 || n == 0x85 || n == 0xa0 || n == 0x1680 || (0x2000 <= n
        && n <= 0x200a) || n == 0x2028 || n == 0x2029 || n == 0x202f || n == 0x205f || n == 0x3000
}

/// `s` without the white space at its start.
pub open spec fn trim_start(s: Seq<char>) -> Seq<char>
    decreases s.len(),
{
    if s.len() > 0 && is_white(s[0]) {
        trim_start(s.drop_first())
    } else {
        s
    }
}

/// `s` without the white space at its end.
pub open spec fn trim_end(s: Seq<char>) -> Seq<char>
    decreases s.len(),
{
    if s.len() > 0 && is_white(s.last()) {
        trim_end(s.drop_last())
    } else {
        s
    }
}

/// `s` without the white space at both ends.
pub open spec fn trim(s: Seq<char>) -> Seq<char> {
    trim_end(trim_start(s))
}

/// What is left of a trimmed text neither starts nor ends with white space, so that trimming it
/// again changes nothing.
pub proof fn law_trimmed_is_bare(s: Seq<char>)
    ensures
        trim(s).len() > 0 ==> !is_white(trim(s)[0]) && !is_white(trim(s).last()),
        trim(trim(s)) == trim(s),
{
    lemma_trim_start(s);
    lemma_trim_end(trim_start(s));
}

/// `trim_start` leaves no white space at the start.
proof fn lemma_trim_start(s: Seq<char>)
    ensures
        trim_start(s).len() > 0 ==> !is_white(trim_start(s)[0]),
    decreases s.len(),
{
    if s.len() > 0 && is_white(s[0]) {
        lemma_trim_start(s.drop_first());
    }
}

/// `trim_end` leaves no white space at the end, and the start as it was.
proof fn lemma_trim_end(s: Seq<char>)
    ensures
        trim_end(s).len() > 0 ==> !is_white(trim_end(s).last()) && trim_end(s)[0] == s[0],
    decreases s.len(),
{
    if s.len() > 0 && is_white(s.last()) {
        lemma_trim_end(s.drop_last());
    }
}

/// Narrows `cs[from..to]` to what is left of it without white space at both ends.
pub fn trim_range(cs: &Vec<char>, from: usize, to: usize) -> (r: (usize, usize))
    requires
        from <= to <= cs@.len(),
    ensures
        from <= r.0 <= r.1 <= to,
        cs@.subrange(r.0 as int, r.1 as int) == trim(cs@.subrange(from as int, to as int)),
{
    let ghost whole = cs@.subrange(from as int, to as int);
    let mut a: usize = from;
    while a < to && is_white_space(cs[a])
        invariant
            from <= a <= to <= cs@.len(),
            trim_start(cs@.subrange(a as int, to as int)) == trim_start(whole),
        decreases to - a,
    {
        assert(cs@.subrange(a as int, to as int).drop_first() =~= cs@.subrange(a + 1, to as int));
        a += 1;
    }
    let mut b: usize = to;
    while a < b && is_white_space(cs[b - 1])
        invariant
            from <= a <= b <= to <= cs@.len(),
            trim_end(cs@.subrange(a as int, b as int)) == trim(whole),
        decreases b - a,
    {
        assert(cs@.subrange(a as int, b as int).drop_last() =~= cs@.subrange(a as int, b - 1));
        b -= 1;
    }
    (a, b)
}

/// `s` without the white space at both ends.
pub fn trimmed(s: &str) -> (r: String)
    ensures
        r@ == trim(s@),
{
    let cs = chars_of(s);
    let (a, b) = trim_range(&cs, 0, cs.len());
    assert(cs@.subrange(0, cs@.len() as int) =~= s@);
    string_of(&cs, a, b)
}

/// The pieces of `s` between line feeds.
pub open spec fn split_lines(s: Seq<char>) -> Seq<Seq<char>>
    decreases s.len(),
{
    if s.len() == 0 {
        seq![Seq::<char>::empty()]
    } else {
        let before = split_lines(s.drop_last());
        if s.last() == '\n' {
            before.push(Seq::<char>::empty())
        } else {
            before.drop_last().push(before.last().push(s.last()))
        }
    }
}

/// The number that a run of decimal digits stands for.
pub open spec fn numeral_value(digits: Seq<char>) -> int
    decreases digits.len(),
{
    if digits.len() == 0 {
        0
    } else {
        10 * numeral_value(digits.drop_last()) + (digits.last() as int - '0' as int)
    }
}

/// A numeral is made of digits, stands for its number, and has no leading zero but that of zero
/// itself.
pub proof fn law_numeral_stands_for_its_number(n: nat)
    ensures
        numeral_value(decimal(n)) == n,
        decimal(n).len() > 0,
        forall|i: int| 0 <= i < decimal(n).len() ==> '0' <= #[trigger] decimal(n)[i] <= '9',
        decimal(n)[0] == '0' ==> n == 0 && decimal(n).len() == 1,
    decreases n,
{
    reveal_with_fuel(numeral_value, 2);
    if n >= 10 {
        law_numeral_stands_for_its_number(n / 10);
        assert(decimal(n).drop_last() =~= decimal(n / 10));
        assert(decimal(n)[0] == decimal(n / 10)[0]);
    } else {
        assert(decimal(n).drop_last() =~= Seq::<char>::empty());
    }
}

/// Trimming cuts off exactly the white space at both ends: whatever lies between two cuts that
/// have only white space outside and none next to them inside is what is left; of a text of
/// white space nothing is left.
pub proof fn law_trim_cuts_white_space(s: Seq<char>, a: int, b: int)
    requires
        0 <= a <= b <= s.len(),
        forall|i: int| 0 <= i < a ==> is_white(#[trigger] s[i]),
        forall|i: int| b <= i < s.len() ==> is_white(#[trigger] s[i]),
        a < b ==> !is_white(s[a]) && !is_white(s[b - 1]),
    ensures
        trim(s) == s.subrange(a, b),
{
    if a < b {
        lemma_skip_white(s, a);
        lemma_drop_white(s.skip(a), b - a);
        assert(s.skip(a).take(b - a) =~= s.subrange(a, b));
    } else {
        lemma_all_white(s);
        assert(s.subrange(a, b) =~= Seq::<char>::empty());
        assert(trim_start(s) =~= Seq::<char>::empty());
    }
}

/// What is left of a trimmed text is a piece of it, with only white space outside.
pub proof fn law_trimmed_is_a_piece(s: Seq<char>) -> (r: (int, int))
    ensures
        0 <= r.0 <= r.1 <= s.len(),
        trim(s) == s.subrange(r.0, r.1),
        forall|i: int| 0 <= i < r.0 ==> is_white(#[trigger] s[i]),
        forall|i: int| r.1 <= i < s.len() ==> is_white(#[trigger] s[i]),
        r.0 < r.1 ==> !is_white(s[r.0]) && !is_white(s[r.1 - 1]),
{
    let a = lemma_first_bare(s, 0);
    let b = lemma_last_bare(s, a, s.len() as int);
    law_trim_cuts_white_space(s, a, b);
    (a, b)
}

/// The first position that holds no white space, or the end.
proof fn lemma_first_bare(s: Seq<char>, from: int) -> (a: int)
    requires
        0 <= from <= s.len(),
        forall|i: int| 0 <= i < from ==> is_white(#[trigger] s[i]),
    ensures
        from <= a <= s.len(),
        forall|i: int| 0 <= i < a ==> is_white(#[trigger] s[i]),
        a < s.len() ==> !is_white(s[a]),
    decreases s.len() - from,
{
    if from < s.len() && is_white(s[from]) {
        lemma_first_bare(s, from + 1)
    } else {
        from
    }
}

/// The position after the last one from `a` on that holds no white space, or `a`.
proof fn lemma_last_bare(s: Seq<char>, a: int, to: int) -> (b: int)
    requires
        0 <= a <= to <= s.len(),
        forall|i: int| to <= i < s.len() ==> is_white(#[trigger] s[i]),
    ensures
        a <= b <= to,
        forall|i: int| b <= i < s.len() ==> is_white(#[trigger] s[i]),
        a < b ==> !is_white(s[b - 1]),
    decreases to,
{
    if a < to && is_white(s[to - 1]) {
        lemma_last_bare(s, a, to - 1)
    } else {
        to
    }
}

proof fn lemma_skip_white(s: Seq<char>, a: int)
    requires
        0 <= a < s.len(),
        forall|i: int| 0 <= i < a ==> is_white(#[trigger] s[i]),
        !is_white(s[a]),
    ensures
        trim_start(s) == s.skip(a),
    decreases a,
{
    if a > 0 {
        let rest = s.drop_first();
        assert forall|i: int| 0 <= i < a - 1 implies is_white(#[trigger] rest[i]) by {
            assert(rest[i] == s[i + 1]);
        }
        assert(is_white(s[0]));
        lemma_skip_white(rest, a - 1);
        assert(rest.skip(a - 1) =~= s.skip(a));
    } else {
        assert(s.skip(0) =~= s);
    }
}

proof fn lemma_drop_white(s: Seq<char>, b: int)
    requires
        0 < b <= s.len(),
        forall|i: int| b <= i < s.len() ==> is_white(#[trigger] s[i]),
        !is_white(s[b - 1]),
    ensures
        trim_end(s) == s.take(b),
    decreases s.len(),
{
    if b < s.len() {
        assert(is_white(s[s.len() - 1]));
        lemma_drop_white(s.drop_last(), b);
        assert(s.drop_last().take(b) =~= s.take(b));
    } else {
        assert(s.take(b) =~= s);
    }
}

proof fn lemma_all_white(s: Seq<char>)
    requires
        forall|i: int| 0 <= i < s.len() ==> is_white(#[trigger] s[i]),
    ensures
        trim_start(s).len() == 0,
    decreases s.len(),
{
    if s.len() > 0 {
        let rest = s.drop_first();
        assert forall|i: int| 0 <= i < rest.len() implies is_white(#[trigger] rest[i]) by {
            assert(rest[i] == s[i + 1]);
        }
        assert(is_white(s[0]));
        lemma_all_white(rest);
    }
}

/// Whether `s[a..b]` is a whole line: no line feed is in it, and one or an end of the text is on
/// either side.
pub open spec fn whole_line(s: Seq<char>, a: int, b: int) -> bool {
    &&& 0 <= a <= b <= s.len()
    &&& a == 0 || s[a - 1] == '\n'
    &&& b == s.len() || s[b] == '\n'
    &&& forall|i: int| a <= i < b ==> #[trigger] s[i] != '\n'
}

/// Every whole line of a text is among its lines; the last one is the one at its end.
pub proof fn law_every_line_is_split_off(s: Seq<char>, a: int, b: int)
    requires
        whole_line(s, a, b),
    ensures
        split_lines(s).contains(s.subrange(a, b)),
        b == s.len() ==> split_lines(s).last() == s.subrange(a, b),
{
    lemma_line_is_split_off(s, a, b);
    let lines = split_lines(s);
    if b == s.len() {
        assert(lines[lines.len() - 1] == s.subrange(a, b));
    } else {
        let i = choose|i: int|
            0 <= i < lines.drop_last().len() && lines.drop_last()[i] == s.subrange(a, b);
        assert(lines[i] == s.subrange(a, b));
    }
}

proof fn lemma_line_is_split_off(s: Seq<char>, a: int, b: int)
    requires
        whole_line(s, a, b),
    ensures
        split_lines(s).len() > 0,
        b == s.len() ==> split_lines(s).last() == s.subrange(a, b),
        b < s.len() ==> split_lines(s).drop_last().contains(s.subrange(a, b)),
    decreases s.len(),
{
    lemma_some_line(s);
    if s.len() == 0 {
        assert(s.subrange(a, b) =~= Seq::<char>::empty());
    } else {
        let rest = s.drop_last();
        let before = split_lines(rest);
        let lines = split_lines(s);
        lemma_some_line(rest);
        if b == s.len() {
            if a == s.len() {
                assert(s.subrange(a, b) =~= Seq::<char>::empty());
            } else {
                assert(s[b - 1] != '\n');
                assert(whole_line(rest, a, b - 1));
                lemma_line_is_split_off(rest, a, b - 1);
                assert(rest.subrange(a, b - 1).push(s.last()) =~= s.subrange(a, b));
            }
        } else {
            assert(whole_line(rest, a, b));
            lemma_line_is_split_off(rest, a, b);
            assert(rest.subrange(a, b) =~= s.subrange(a, b));
            let line = s.subrange(a, b);
            if b == s.len() - 1 {
                assert(lines.drop_last() =~= before);
                assert(before[before.len() - 1] == line);
            } else {
                let i = choose|i: int|
                    0 <= i < before.drop_last().len() && before.drop_last()[i] == line;
                assert(lines.drop_last()[i] == line);
            }
        }
    }
}

proof fn lemma_some_line(s: Seq<char>)
    ensures
        split_lines(s).len() > 0,
    decreases s.len(),
{
    if s.len() > 0 {
        lemma_some_line(s.drop_last());
    }
}

/// Every line that a text is split into is a whole line of it; the last one is at its end.
pub proof fn law_split_lines_are_whole(s: Seq<char>, i: int) -> (r: (int, int))
    requires
        0 <= i < split_lines(s).len(),
    ensures
        whole_line(s, r.0, r.1),
        split_lines(s)[i] == s.subrange(r.0, r.1),
        i == split_lines(s).len() - 1 <==> r.1 == s.len(),
    decreases s.len(),
{
    if s.len() == 0 {
        assert(s.subrange(0, 0) =~= Seq::<char>::empty());
        (0, 0)
    } else {
        let rest = s.drop_last();
        let before = split_lines(rest);
        let n = s.len() as int;
        lemma_some_line(rest);
        if s.last() == '\n' {
            if i == before.len() {
                assert(s.subrange(n, n) =~= Seq::<char>::empty());
                (n, n)
            } else {
                let r = law_split_lines_are_whole(rest, i);
                assert(rest.subrange(r.0, r.1) =~= s.subrange(r.0, r.1));
                assert(whole_line(s, r.0, r.1)) by {
                    assert forall|j: int| r.0 <= j < r.1 implies #[trigger] s[j] != '\n' by {
                        assert(rest[j] == s[j]);
                    }
                }
                r
            }
        } else {
            let r = law_split_lines_are_whole(rest, i);
            if i == before.len() - 1 {
                assert(rest.subrange(r.0, r.1).push(s.last()) =~= s.subrange(r.0, n));
                assert(whole_line(s, r.0, n)) by {
                    assert forall|j: int| r.0 <= j < n implies #[trigger] s[j] != '\n' by {
                        if j < n - 1 {
                            assert(rest[j] == s[j]);
                        }
                    }
                }
                (r.0, n)
            } else {
                assert(rest.subrange(r.0, r.1) =~= s.subrange(r.0, r.1));
                assert(whole_line(s, r.0, r.1)) by {
                    assert forall|j: int| r.0 <= j < r.1 implies #[trigger] s[j] != '\n' by {
                        assert(rest[j] == s[j]);
                    }
                }
                r
            }
        }
    }
}

} // verus!
