//! Text building blocks: decimal numbers, comparison, trimming and ASCII case.

use vstd::prelude::*;
use vstd::string::*;

verus! {

/// The character of a decimal digit.
pub open spec fn digit_char(d: nat) -> char {
    (48 + d) as char
}

/// A number written in decimal, without leading zeros.
pub open spec fn decimal(n: nat) -> Seq<char>
    decreases n,
{
    if n < 10 {
        seq![digit_char(n)]
    } else {
        decimal(n / 10).push(digit_char(n % 10))
    }
}

/// A number written in decimal with at least two digits.
pub open spec fn decimal2(n: nat) -> Seq<char> {
    if n < 10 {
        "0"@ + decimal(n)
    } else {
        decimal(n)
    }
}

/// A number written in decimal with at least four digits.
pub open spec fn decimal4(n: nat) -> Seq<char> {
    if n < 10 {
        "000"@ + decimal(n)
    } else if n < 100 {
        "00"@ + decimal(n)
    } else if n < 1000 {
        "0"@ + decimal(n)
    } else {
        decimal(n)
    }
}

/// Appends a single decimal digit.
fn push_digit(out: &mut String, d: u64)
    requires
        d < 10,
    ensures
        final(out)@ == old(out)@.push(digit_char(d as nat)),
{
    proof {
        reveal_strlit("0");
        reveal_strlit("1");
        reveal_strlit("2");
        reveal_strlit("3");
        reveal_strlit("4");
        reveal_strlit("5");
        reveal_strlit("6");
        reveal_strlit("7");
        reveal_strlit("8");
        reveal_strlit("9");
    }
    if d == 0 {
        out.append("0");
    } else if d == 1 {
        out.append("1");
    } else if d == 2 {
        out.append("2");
    } else if d == 3 {
        out.append("3");
    } else if d == 4 {
        out.append("4");
    } else if d == 5 {
        out.append("5");
    } else if d == 6 {
        out.append("6");
    } else if d == 7 {
        out.append("7");
    } else if d == 8 {
        out.append("8");
    } else {
        out.append("9");
    }
    assert(out@ =~= old(out)@.push(digit_char(d as nat)));
}

/// Appends `n` in decimal.
pub fn push_decimal(out: &mut String, n: u64)
    ensures
        final(out)@ == old(out)@ + decimal(n as nat),
    decreases n,
{
    if n >= 10 {
        push_decimal(out, n / 10);
    }
    push_digit(out, n % 10);
    assert(out@ =~= old(out)@ + decimal(n as nat));
}

/// Appends `n` in decimal with at least two digits.
pub fn push_decimal2(out: &mut String, n: u64)
    ensures
        final(out)@ == old(out)@ + decimal2(n as nat),
{
    if n < 10 {
        out.append("0");
    }
    push_decimal(out, n);
    assert(out@ =~= old(out)@ + decimal2(n as nat));
}

/// Appends `n` in decimal with at least four digits.
pub fn push_decimal4(out: &mut String, n: u64)
    ensures
        final(out)@ == old(out)@ + decimal4(n as nat),
{
    if n < 10 {
        out.append("000");
    } else if n < 100 {
        out.append("00");
    } else if n < 1000 {
        out.append("0");
    }
    push_decimal(out, n);
    assert(out@ =~= old(out)@ + decimal4(n as nat));
}

/// The characters of a string, in order.
pub fn chars_of(s: &str) -> (res: Vec<char>)
    ensures
        res@ == s@,
{
    let mut res: Vec<char> = Vec::new();
    for c in it: s.chars()
        invariant
            res@ == it.seq().take(it.index() as int),
            it.seq() == s@,
    {
        res.push(c);
    }
    res
}

/// Whether two strings hold the same characters.
pub fn same_text(a: &str, b: &str) -> (res: bool)
    ensures
        res == (a@ == b@),
{
    let left = chars_of(a);
    let right = chars_of(b);
    same_chars(&left, &right)
}

/// Whether two vectors hold the same characters.
pub fn same_chars(a: &Vec<char>, b: &Vec<char>) -> (res: bool)
    ensures
        res == (a@ == b@),
{
    if a.len() != b.len() {
        return false;
    }
    let mut i: usize = 0;
    while i < a.len()
        invariant
            i <= a.len(),
            a.len() == b.len(),
            forall|j: int| 0 <= j < i ==> a@[j] == b@[j],
        decreases a.len() - i,
    {
        if a[i] != b[i] {
            return false;
        }
        i += 1;
    }
    assert(a@ =~= b@);
    true
}

/// An ASCII capital letter becomes its small letter; any other character stays.
pub open spec fn lower_char(c: char) -> char {
    if 'A' <= c <= 'Z' {
        (c as u32 + 32) as char
    } else {
        c
    }
}

/// A text with its ASCII capital letters made small.
pub open spec fn lower_text(s: Seq<char>) -> Seq<char> {
    s.map_values(|c: char| lower_char(c))
}

/// The small letter of an ASCII capital letter; any other character as it is.
pub fn to_lower(c: char) -> (res: char)
    ensures
        res == lower_char(c),
{
    if c >= 'A' && c <= 'Z' {
        let code: u8 = c as u8;
        (code + 32) as char
    } else {
        c
    }
}

/// The characters of a text with its ASCII capital letters made small.
pub fn lower_chars(s: &Vec<char>) -> (res: Vec<char>)
    ensures
        res@ == lower_text(s@),
{
    let mut res: Vec<char> = Vec::new();
    let mut i: usize = 0;
    while i < s.len()
        invariant
            i <= s.len(),
            res@ =~= lower_text(s@.take(i as int)),
        decreases s.len() - i,
    {
        res.push(to_lower(s[i]));
        i += 1;
    }
    assert(s@.take(s@.len() as int) =~= s@);
    res
}

/// The characters of the Unicode property `White_Space`.
pub open spec fn is_white(c: char) -> bool {
    let u = c as u32;
    ||| 0x09 <= u <= 0x0d
    ||| u == 0x20
    ||| u == 0x85
    ||| u == 0xa0
    ||| u == 0x1680
    ||| 0x2000 <= u <= 0x200a
    ||| u == 0x2028
    ||| u == 0x2029
    ||| u == 0x202f
    ||| u == 0x205f
    ||| u == 0x3000
}

/// Whether a character has the Unicode property `White_Space`.
pub fn is_whitespace(c: char) -> (res: bool)
    ensures
        res == is_white(c),
{
    let u: u32 = c as u32;
    (u >= 0x09 && u <= 0x0d) || u == 0x20 || u == 0x85 || u == 0xa0 || u == 0x1680 || (u >= 0x2000
        && u <= 0x200a) || u == 0x2028 || u == 0x2029 || u == 0x202f || u == 0x205f || u == 0x3000
}

/// What is left of a text when the white space at its start is taken off.
pub open spec fn trim_front(s: Seq<char>) -> Seq<char>
    decreases s.len(),
{
    if s.len() > 0 && is_white(s[0]) {
        trim_front(s.drop_first())
    } else {
        s
    }
}

/// What is left of a text when the white space at its end is taken off.
pub open spec fn trim_back(s: Seq<char>) -> Seq<char>
    decreases s.len(),
{
    if s.len() > 0 && is_white(s.last()) {
        trim_back(s.drop_last())
    } else {
        s
    }
}

/// A text without the white space at its two ends.
pub open spec fn trimmed(s: Seq<char>) -> Seq<char> {
    trim_back(trim_front(s))
}

/// Takes the white space off both ends of a text.
pub fn trim_chars(s: &Vec<char>) -> (res: Vec<char>)
    ensures
        res@ == trimmed(s@),
{
    let mut from: usize = 0;
    proof {
        assert(s@.skip(0) =~= s@);
    }
    while from < s.len() && is_whitespace(s[from])
        invariant
            from <= s.len(),
            trim_front(s@.skip(from as int)) == trim_front(s@),
        decreases s.len() - from,
    {
        proof {
            assert(s@.skip(from as int).drop_first() =~= s@.skip(from + 1));
        }
        from += 1;
    }
    let ghost front = s@.skip(from as int);
    assert(trim_front(s@) == front);
    let mut to: usize = s.len();
    proof {
        assert(s@.subrange(from as int, to as int) =~= front);
    }
    while to > from && is_whitespace(s[to - 1])
        invariant
            from <= to <= s.len(),
            trim_back(s@.subrange(from as int, to as int)) == trim_back(front),
        decreases to,
    {
        proof {
            assert(s@.subrange(from as int, to as int).drop_last() =~= s@.subrange(
                from as int,
                to - 1,
            ));
        }
        to -= 1;
    }
    let ghost kept = s@.subrange(from as int, to as int);
    assert(trim_back(front) == kept);
    let mut res: Vec<char> = Vec::new();
    let mut i: usize = from;
    while i < to
        invariant
            from <= i <= to <= s.len(),
            res@ =~= s@.subrange(from as int, i as int),
        decreases to - i,
    {
        res.push(s[i]);
        i += 1;
    }
    res
}

/// The number that a text of decimal digits stands for.
pub open spec fn decimal_value(s: Seq<char>) -> int
    decreases s.len(),
{
    if s.len() == 0 {
        0
    } else {
        10 * decimal_value(s.drop_last()) + (s.last() as int - '0' as int)
    }
}

/// A number written in decimal reads back as the number, and has no leading zero.
pub proof fn lemma_decimal_reads_back(n: nat)
    ensures
        decimal_value(decimal(n)) == n,
        decimal(n).len() >= 1,
        n > 0 ==> decimal(n)[0] != '0',
        forall|i: int| 0 <= i < decimal(n).len() ==> '0' <= #[trigger] decimal(n)[i] <= '9',
    decreases n,
{
    if n < 10 {
        assert(decimal(n).drop_last() =~= seq![]);
        assert(decimal_value(seq![]) == 0);
    } else {
        lemma_decimal_reads_back(n / 10);
        assert(decimal(n).drop_last() =~= decimal(n / 10));
    }
}

/// The width of a number below ten thousand, and of the padded forms.
pub proof fn lemma_decimal_widths(n: nat)
    ensures
        n < 100 ==> decimal2(n).len() == 2,
        n < 10000 ==> decimal4(n).len() == 4,
{
    reveal_with_fuel(decimal, 4);
    reveal_strlit("0");
    reveal_strlit("00");
    reveal_strlit("000");
}

/// A trimmed text has no white space at its ends.
pub proof fn lemma_trimmed_ends(s: Seq<char>)
    ensures
        trimmed(s).len() > 0 ==> !is_white(trimmed(s)[0]) && !is_white(trimmed(s).last()),
{
    lemma_trim_front_start(s);
    lemma_trim_back_end(trim_front(s));
}

/// A text trimmed at its start has no white space there.
proof fn lemma_trim_front_start(s: Seq<char>)
    ensures
        trim_front(s).len() > 0 ==> !is_white(trim_front(s)[0]),
    decreases s.len(),
{
    if s.len() > 0 && is_white(s[0]) {
        lemma_trim_front_start(s.drop_first());
    }
}

/// A text trimmed at its end has no white space there, and starts as it did.
proof fn lemma_trim_back_end(s: Seq<char>)
    ensures
        trim_back(s).len() > 0 ==> !is_white(trim_back(s).last()) && trim_back(s)[0] == s[0],
    decreases s.len(),
{
    if s.len() > 0 && is_white(s.last()) {
        lemma_trim_back_end(s.drop_last());
    }
}

/// A number below ten is written as its digit, and one more digit behind a number multiplies
/// it by ten and adds the digit.
pub proof fn lemma_decimal_digits(n: nat, d: nat)
    requires
        d < 10,
    ensures
        decimal(d).len() == 1,
        decimal(d)[0] as int == 48 + d,
        n > 0 ==> decimal(10 * n + d) == decimal(n) + decimal(d),
{
    if n > 0 {
        let m = 10 * n + d;
        assert(m / 10 == n && m % 10 == d);
        assert(decimal(m) =~= decimal(n) + decimal(d));
    }
}

/// Zeros in front of a number do not change it.
proof fn lemma_leading_zeros(z: Seq<char>, s: Seq<char>)
    requires
        forall|i: int| 0 <= i < z.len() ==> #[trigger] z[i] == '0',
    ensures
        decimal_value(z + s) == decimal_value(s),
    decreases z.len() + s.len(),
{
    if s.len() > 0 {
        assert((z + s).drop_last() =~= z + s.drop_last());
        lemma_leading_zeros(z, s.drop_last());
    } else if z.len() > 0 {
        assert(z + s =~= z);
        assert(z.drop_last() + s =~= z.drop_last());
        lemma_leading_zeros(z.drop_last(), s);
    } else {
        assert(z + s =~= s);
    }
}

/// A number written with at least two or at least four digits has that many, all of them
/// digits, and reads back as the number; zeros are put in front only to fill up.
pub proof fn lemma_padded_reads_back(n: nat)
    ensures
        decimal_value(decimal2(n)) == n,
        decimal_value(decimal4(n)) == n,
        decimal2(n).len() >= 2,
        decimal4(n).len() >= 4,
        decimal2(n).len() > 2 ==> decimal2(n)[0] != '0',
        decimal4(n).len() > 4 ==> decimal4(n)[0] != '0',
        forall|i: int| 0 <= i < decimal2(n).len() ==> '0' <= #[trigger] decimal2(n)[i] <= '9',
        forall|i: int| 0 <= i < decimal4(n).len() ==> '0' <= #[trigger] decimal4(n)[i] <= '9',
{
    lemma_decimal_reads_back(n);
    lemma_decimal_widths(n);
    lemma_decimal_long(n);
    reveal_strlit("0");
    reveal_strlit("00");
    reveal_strlit("000");
    lemma_leading_zeros("0"@, decimal(n));
    lemma_leading_zeros("00"@, decimal(n));
    lemma_leading_zeros("000"@, decimal(n));
}

/// The least width of a number that is not small.
proof fn lemma_decimal_long(n: nat)
    ensures
        n >= 10 ==> decimal(n).len() >= 2,
        n >= 1000 ==> decimal(n).len() >= 4,
{
    reveal_with_fuel(decimal, 4);
}

/// Trimming takes nothing but white space away, and nothing from the middle.
pub proof fn lemma_trimmed_is_the_middle(s: Seq<char>) -> (cut: (int, int))
    ensures
        ({
            let (i, j) = cut;
            &&& 0 <= i <= j <= s.len()
            &&& trimmed(s) == s.subrange(i, j)
            &&& forall|k: int| 0 <= k < i ==> is_white(#[trigger] s[k])
            &&& forall|k: int| j <= k < s.len() ==> is_white(#[trigger] s[k])
        }),
{
    let i = lemma_trim_front_cut(s);
    let front = trim_front(s);
    let n = lemma_trim_back_cut(front);
    assert(front =~= s.skip(i));
    assert forall|k: int| i + n <= k < s.len() implies is_white(#[trigger] s[k]) by {
        assert(front[k - i] == s[k]);
    }
    assert(trimmed(s) =~= s.subrange(i, i + n));
    (i, i + n)
}

/// Where a text starts when it is trimmed at its start.
proof fn lemma_trim_front_cut(s: Seq<char>) -> (i: int)
    ensures
        0 <= i <= s.len(),
        trim_front(s) == s.skip(i),
        forall|k: int| 0 <= k < i ==> is_white(#[trigger] s[k]),
    decreases s.len(),
{
    if s.len() > 0 && is_white(s[0]) {
        let i = lemma_trim_front_cut(s.drop_first());
        assert(s.drop_first().skip(i) =~= s.skip(i + 1));
        assert forall|k: int| 0 <= k < i + 1 implies is_white(#[trigger] s[k]) by {
            if k > 0 {
                assert(s.drop_first()[k - 1] == s[k]);
            }
        }
        i + 1
    } else {
        assert(s.skip(0) =~= s);
        0
    }
}

/// How long a text is when it is trimmed at its end.
proof fn lemma_trim_back_cut(s: Seq<char>) -> (n: int)
    ensures
        0 <= n <= s.len(),
        trim_back(s) == s.take(n),
        forall|k: int| n <= k < s.len() ==> is_white(#[trigger] s[k]),
    decreases s.len(),
{
    if s.len() > 0 && is_white(s.last()) {
        let n = lemma_trim_back_cut(s.drop_last());
        assert(s.drop_last().take(n) =~= s.take(n));
        assert forall|k: int| n <= k < s.len() implies is_white(#[trigger] s[k]) by {
            if k < s.len() - 1 {
                assert(s.drop_last()[k] == s[k]);
            }
        }
        n
    } else {
        assert(s.take(s.len() as int) =~= s);
        s.len() as int
    }
}

/// White space is tab, line feed, line tabulation, form feed, carriage return, space, next
/// line, no-break space, and the spaces and separators beyond Latin-1: twenty-five characters.
pub proof fn lemma_white_space(c: char)
    ensures
        is_white(c) <==> seq![
            0x9u32,
            0xa,
            0xb,
            0xc,
            0xd,
            0x20,
            0x85,
            0xa0,
            0x1680,
            0x2000,
            0x2001,
            0x2002,
            0x2003,
            0x2004,
            0x2005,
            0x2006,
            0x2007,
            0x2008,
            0x2009,
            0x200a,
            0x2028,
            0x2029,
            0x202f,
            0x205f,
            0x3000,
        ].contains(c as u32),
{
    let all = seq![
        0x9u32,
        0xa,
        0xb,
        0xc,
        0xd,
        0x20,
        0x85,
        0xa0,
        0x1680,
        0x2000,
        0x2001,
        0x2002,
        0x2003,
        0x2004,
        0x2005,
        0x2006,
        0x2007,
        0x2008,
        0x2009,
        0x200a,
        0x2028,
        0x2029,
        0x202f,
        0x205f,
        0x3000,
    ];
    let u = c as u32;
    if is_white(c) {
        if u <= 0xd {
            assert(all[u - 9] == u);
        } else if u == 0x20 {
            assert(all[5] == u);
        } else if u == 0x85 {
            assert(all[6] == u);
        } else if u == 0xa0 {
            assert(all[7] == u);
        } else if u == 0x1680 {
            assert(all[8] == u);
        } else if u <= 0x200a {
            assert(all[u - 0x2000 + 9] == u);
        } else if u == 0x2028 {
            assert(all[20] == u);
        } else if u == 0x2029 {
            assert(all[21] == u);
        } else if u == 0x202f {
            assert(all[22] == u);
        } else if u == 0x205f {
            assert(all[23] == u);
        } else {
            assert(all[24] == u);
        }
    }
}

/// Making letters small adds 32 to the codes from 65 to 90, which are those of the ASCII
/// capital letters, leaves every other character, and keeps each in its place.
pub proof fn lemma_small_letters(s: Seq<char>, i: int)
    requires
        0 <= i < s.len(),
    ensures
        lower_text(s).len() == s.len(),
        65 <= s[i] as int <= 90 ==> lower_text(s)[i] as int == s[i] as int + 32,
        !(65 <= s[i] as int <= 90) ==> lower_text(s)[i] == s[i],
{
}

/// Whether a text is a number in decimal: digits, the first no zero unless it stands alone,
/// that read as the number.
pub open spec fn reads_as(s: Seq<char>, n: int) -> bool {
    &&& s.len() > 0
    &&& s.len() > 1 ==> s[0] != '0'
    &&& forall|i: int| 0 <= i < s.len() ==> '0' <= #[trigger] s[i] <= '9'
    &&& decimal_value(s) == n
}

/// A number written in decimal is a number in decimal.
pub proof fn lemma_decimal_reads_as(n: nat)
    ensures
        reads_as(decimal(n), n as int),
{
    lemma_decimal_reads_back(n);
}

/// Whether a character is a small letter or its ASCII capital.
pub open spec fn same_letter(c: char, small: char) -> bool {
    c == small || 65 <= c as int <= 90 && c as int + 32 == small as int
}

/// Made small, a text is a word without capitals exactly if it is the word in letters of
/// either case.
pub proof fn lemma_small_word(s: Seq<char>, word: Seq<char>)
    requires
        forall|k: int| 0 <= k < word.len() ==> !(65 <= #[trigger] word[k] as int <= 90),
    ensures
        lower_text(s) == word <==> s.len() == word.len() && forall|k: int|
            0 <= k < word.len() ==> #[trigger] same_letter(s[k], word[k]),
{
    if s.len() == word.len() {
        assert forall|k: int| 0 <= k < s.len() implies (lower_text(s)[k] == word[k])
            == #[trigger] same_letter(s[k], word[k]) by {
            lemma_small_letters(s, k);
        }
        if forall|k: int| 0 <= k < word.len() ==> #[trigger] same_letter(s[k], word[k]) {
            assert forall|k: int| 0 <= k < s.len() implies lower_text(s)[k] == word[k] by {
                assert(same_letter(s[k], word[k]));
            }
            assert(lower_text(s) =~= word);
        }
    }
}

} // verus!
