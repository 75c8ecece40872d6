//! Cutting text apart: trimming, splitting and reading numbers, on characters.
use vstd::prelude::*;

verus! {

/// The character is white space.
pub open spec fn is_space(c: char) -> bool {
    ||| '\u{9}' <= c <= '\u{d}'
    ||| c == ' '
    ||| c == '\u{85}'
    ||| c == '\u{a0}'
    ||| c == '\u{1680}'
    ||| '\u{2000}' <= c <= '\u{200a}'
    ||| c == '\u{2028}'
    ||| c == '\u{2029}'
    ||| c == '\u{202f}'
    ||| c == '\u{205f}'
    ||| c == '\u{3000}'
}

/// The character is white space.
fn space(c: char) -> (space: bool)
    ensures
        space == is_space(c),
{
    ('\u{9}' <= c && c <= '\u{d}') || c == ' ' || c == '\u{85}' || c == '\u{a0}' || c == '\u{1680}'
        || ('\u{2000}' <= c && c <= '\u{200a}') || c == '\u{2028}' || c == '\u{2029}' || c
        == '\u{202f}' || c == '\u{205f}' || c == '\u{3000}'
}

/// The text without the white space that it starts with.
pub open spec fn trim_start(s: Seq<char>) -> Seq<char>
    decreases s.len(),
{
    if s.len() > 0 && is_space(s[0]) {
        trim_start(s.drop_first())
    } else {
        s
    }
}

/// The text without the white space that it ends with.
pub open spec fn trim_end(s: Seq<char>) -> Seq<char>
    decreases s.len(),
{
    if s.len() > 0 && is_space(s.last()) {
        trim_end(s.drop_last())
    } else {
        s
    }
}

/// The text without the white space around it.
pub open spec fn trimmed(s: Seq<char>) -> Seq<char> {
    trim_end(trim_start(s))
}

/// Takes the white space around a text away.
pub fn trim(s: &[char]) -> (rest: &[char])
    ensures
        rest@ == trimmed(s@),
{
    let mut start: usize = 0;
    assert(s@.skip(0) =~= s@);
    while start < s.len() && space(s[start])
        invariant
            start <= s@.len(),
            trim_start(s@) == trim_start(s@.skip(start as int)),
        decreases s@.len() - start,
    {
        assert(s@.skip(start as int).drop_first() =~= s@.skip(start + 1));
        start = start + 1;
    }
    let mut end: usize = s.len();
    let ghost from_start = s@.skip(start as int);
    assert(trim_start(s@) == from_start);
    assert(s@.subrange(start as int, end as int) =~= from_start);
    while start < end && space(s[end - 1])
        invariant
            start <= end <= s@.len(),
            trim_end(from_start) == trim_end(s@.subrange(start as int, end as int)),
        decreases end,
    {
        assert(s@.subrange(start as int, end as int).drop_last() =~= s@.subrange(
            start as int,
            end - 1,
        ));
        end = end - 1;
    }
    vstd::slice::slice_subrange(s, start, end)
}

/// Where `sep` first occurs.
pub open spec fn first_match(s: Seq<char>, sep: Seq<char>) -> Option<nat>
    decreases s.len(),
{
    if s.len() < sep.len() {
        None
    } else if s.take(sep.len() as int) == sep {
        Some(0)
    } else if s.len() == 0 {
        None
    } else {
        match first_match(s.drop_first(), sep) {
            Some(i) => Some(i + 1),
            None => None,
        }
    }
}

/// `sep` occurs at `at`.
fn occurs_at(s: &[char], sep: &[char], at: usize) -> (occurs: bool)
    requires
        at + sep@.len() <= s@.len(),
    ensures
        occurs == (s@.subrange(at as int, at + sep@.len()) == sep@),
{
    let mut i: usize = 0;
    assert(s.len() == s@.len());
    while i < sep.len()
        invariant
            i <= sep@.len(),
            at + sep@.len() <= s@.len() <= usize::MAX,
            forall|k: int| 0 <= k < i ==> s@[at + k] == #[trigger] sep@[k],
        decreases sep@.len() - i,
    {
        if s[at + i] != sep[i] {
            assert(s@.subrange(at as int, at + sep@.len())[i as int] != sep@[i as int]);
            return false;
        }
        i = i + 1;
    }
    assert(s@.subrange(at as int, at + sep@.len()) =~= sep@);
    true
}

/// Finds where `sep` first occurs.
pub fn find(s: &[char], sep: &[char]) -> (at: Option<usize>)
    ensures
        at is None <==> first_match(s@, sep@) is None,
        at matches Some(at) ==> first_match(s@, sep@) == Some(at as nat) && at + sep@.len()
            <= s@.len(),
{
    let mut at: usize = 0;
    assert(s@.skip(0) =~= s@);
    while s.len() - at >= sep.len()
        invariant
            at <= s@.len(),
            first_match(s@, sep@) == match first_match(s@.skip(at as int), sep@) {
                Some(i) => Some(i + at as nat),
                None => None,
            },
        decreases s@.len() - at,
    {
        let ghost rest = s@.skip(at as int);
        assert(rest.take(sep@.len() as int) =~= s@.subrange(at as int, at + sep@.len()));
        if occurs_at(s, sep, at) {
            return Some(at);
        }
        if at == s.len() {
            return None;
        }
        assert(rest.drop_first() =~= s@.skip(at + 1));
        at = at + 1;
    }
    None
}

/// The pieces of a text between the occurrences of `sep`.
pub open spec fn split(s: Seq<char>, sep: Seq<char>) -> Seq<Seq<char>>
    decreases s.len(),
{
    if sep.len() == 0 || s.len() == 0 {
        seq![s]
    } else {
        match first_match(s, sep) {
            Some(i) => if i + sep.len() <= s.len() {
                seq![s.take(i as int)] + split(s.skip((i + sep.len()) as int), sep)
            } else {
                seq![s]
            },
            None => seq![s],
        }
    }
}

/// The texts of a run of pieces.
pub open spec fn pieces_text(pieces: Seq<&[char]>) -> Seq<Seq<char>> {
    pieces.map_values(|piece: &[char]| piece@)
}

/// Cuts a text apart at the occurrences of `sep`.
pub fn split_on<'a>(s: &'a [char], sep: &[char]) -> (pieces: Vec<&'a [char]>)
    requires
        sep@.len() > 0,
    ensures
        pieces_text(pieces@) == split(s@, sep@),
{
    let mut pieces: Vec<&'a [char]> = Vec::new();
    let mut rest: &'a [char] = s;
    assert(pieces_text(pieces@) + split(rest@, sep@) =~= split(s@, sep@));
    loop
        invariant_except_break
            pieces_text(pieces@) + split(rest@, sep@) == split(s@, sep@),
        invariant
            sep@.len() > 0,
        ensures
            pieces_text(pieces@) == split(s@, sep@),
        decreases rest@.len(),
    {
        let ghost before = pieces_text(pieces@);
        match find(rest, sep) {
            Some(at) => {
                let len: usize = rest.len();
                let piece = vstd::slice::slice_subrange(rest, 0, at);
                let tail = vstd::slice::slice_subrange(rest, at + sep.len(), len);
                proof {
                    assert(piece@ =~= rest@.take(at as int));
                    assert(tail@ =~= rest@.skip((at + sep@.len()) as int));
                }
                pieces.push(piece);
                proof {
                    assert(pieces_text(pieces@) =~= before.push(piece@));
                    assert(before + (seq![piece@] + split(tail@, sep@)) =~= pieces_text(pieces@)
                        + split(tail@, sep@));
                }
                rest = tail;
            },
            None => {
                pieces.push(rest);
                assert(pieces_text(pieces@) =~= before + seq![rest@]);
                break ;
            },
        }
    }
    pieces
}

/// The character is a decimal digit.
pub open spec fn is_digit(c: char) -> bool {
    '0' <= c <= '9'
}

/// The value of a decimal digit.
pub open spec fn digit_value(c: char) -> nat {
    if is_digit(c) {
        (c as int - '0' as int) as nat
    } else {
        0
    }
}

/// The value of a run of decimal digits.
pub open spec fn digits_value(s: Seq<char>) -> nat
    decreases s.len(),
{
    if s.len() == 0 {
        0
    } else {
        10 * digits_value(s.drop_last()) + digit_value(s.last())
    }
}

/// The digits of a number: all of the text, but for a plus sign that it may start with.
pub open spec fn number_digits(s: Seq<char>) -> Seq<char> {
    if s.len() > 0 && s[0] == '+' {
        s.drop_first()
    } else {
        s
    }
}

/// The 64-bit number that a text writes in decimal digits, with or without a plus sign before
/// them.
pub open spec fn number(s: Seq<char>) -> Option<u64> {
    let digits = number_digits(s);
    if digits.len() > 0 && (forall|i: int| 0 <= i < digits.len() ==> is_digit(#[trigger] digits[i]))
        && digits_value(digits) <= u64::MAX {
        Some(digits_value(digits) as u64)
    } else {
        None
    }
}

/// A longer run of digits is worth no less.
proof fn lemma_digits_value_grows(s: Seq<char>, i: int)
    requires
        0 <= i <= s.len(),
    ensures
        digits_value(s.take(i)) <= digits_value(s),
    decreases s.len() - i,
{
    if i < s.len() {
        let next = s.take(i + 1);
        assert(next.drop_last() =~= s.take(i));
        lemma_digits_value_grows(s, i + 1);
    } else {
        assert(s.take(i) =~= s);
    }
}

/// Reads a number.
pub fn parse_u64(s: &[char]) -> (value: Option<u64>)
    ensures
        value == number(s@),
{
    let mut at: usize = 0;
    if s.len() > 0 && s[0] == '+' {
        at = 1;
    }
    let ghost digits = number_digits(s@);
    let first: usize = at;
    assert(digits =~= s@.skip(first as int));
    if at == s.len() {
        return None;
    }
    let mut value: u64 = 0;
    assert(digits.take(0) =~= Seq::empty());
    while at < s.len()
        invariant
            first <= at <= s@.len(),
            digits == number_digits(s@),
            digits == s@.skip(first as int),
            digits.len() > 0,
            forall|i: int| 0 <= i < at - first ==> is_digit(#[trigger] digits[i]),
            value == digits_value(digits.take(at - first)),
        decreases s@.len() - at,
    {
        let c: char = s[at];
        assert(digits[at - first] == c);
        if c < '0' || c > '9' {
            return None;
        }
        let digit: u64 = (c as u32 - '0' as u32) as u64;
        proof {
            let next = digits.take(at - first + 1);
            assert(next.drop_last() =~= digits.take(at - first));
            assert(digits_value(next) == 10 * value + digit);
            lemma_digits_value_grows(digits, at - first + 1);
        }
        if value > (u64::MAX - digit) / 10 {
            return None;
        }
        value = value * 10 + digit;
        at = at + 1;
    }
    assert(digits.take(at - first) =~= digits);
    Some(value)
}

/// The text writes the number in decimal digits, without leading zeros.
pub open spec fn writes(s: Seq<char>, n: int) -> bool {
    &&& s.len() > 0
    &&& forall|i: int| 0 <= i < s.len() ==> '0' <= #[trigger] s[i] <= '9'
    &&& s.len() > 1 ==> s[0] != '0'
    &&& digits_value(s) == n
}

/// One more digit makes the value ten times as large, and adds the digit.
pub proof fn lemma_digits_value_push(s: Seq<char>, c: char)
    requires
        '0' <= c <= '9',
    ensures
        digits_value(s.push(c)) == 10 * digits_value(s) + (c as int - 48),
        digits_value(Seq::<char>::empty()) == 0,
{
    assert(s.push(c).drop_last() =~= s);
}

/// Zeros before a number do not change what is read.
pub proof fn lemma_leading_zero(s: Seq<char>)
    requires
        s.len() > 0,
        forall|i: int| 0 <= i < s.len() ==> '0' <= #[trigger] s[i] <= '9',
    ensures
        number(seq!['0'] + s) == number(s),
        digits_value(seq!['0'] + s) == digits_value(s),
{
    lemma_zero_adds_nothing(s);
    let t = seq!['0'] + s;
    assert(s[0] != '+' && t[0] == '0');
    assert forall|i: int| 0 <= i < t.len() implies is_digit(#[trigger] t[i]) by {
        if i > 0 {
            assert(t[i] == s[i - 1]);
        }
    }
    assert forall|i: int| 0 <= i < s.len() implies is_digit(#[trigger] s[i]) by {
    }
}

/// A zero before digits adds nothing to their value.
proof fn lemma_zero_adds_nothing(s: Seq<char>)
    ensures
        digits_value(seq!['0'] + s) == digits_value(s),
    decreases s.len(),
{
    let t = seq!['0'] + s;
    if s.len() == 0 {
        assert(t.drop_last() =~= Seq::empty());
        assert(digits_value(t.drop_last()) == 0);
        assert(t.last() == '0');
    } else {
        assert(t.drop_last() =~= seq!['0'] + s.drop_last());
        assert(t.last() == s.last());
        lemma_zero_adds_nothing(s.drop_last());
    }
}

/// What is read of digits is their value, and nothing is read where the value takes more than 64
/// bits, where there is no digit, or where something else stands among them.
pub proof fn lemma_number_read(s: Seq<char>)
    ensures
        s.len() > 0 && (forall|i: int| 0 <= i < s.len() ==> '0' <= #[trigger] s[i] <= '9') ==> (
        number(s) == (if digits_value(s) <= 0xFFFF_FFFF_FFFF_FFFF {
            Some(digits_value(s) as u64)
        } else {
            None
        }) && number(seq!['+'] + s) == number(s)),
        (exists|i: int| 0 < i < s.len() && !('0' <= #[trigger] s[i] <= '9')) ==> number(s) is None,
        s.len() == 0 ==> number(s) is None,
{
    if s.len() > 0 && (forall|i: int| 0 <= i < s.len() ==> '0' <= #[trigger] s[i] <= '9') {
        assert(s[0] != '+');
        assert((seq!['+'] + s).drop_first() =~= s);
        assert forall|i: int| 0 <= i < s.len() implies is_digit(#[trigger] s[i]) by {
        }
    }
    if exists|i: int| 0 < i < s.len() && !('0' <= #[trigger] s[i] <= '9') {
        let i = choose|i: int| 0 < i < s.len() && !('0' <= #[trigger] s[i] <= '9');
        if s[0] == '+' {
            assert(number_digits(s)[i - 1] == s[i]);
        } else {
            assert(number_digits(s)[i] == s[i]);
        }
    }
}

/// The separator is found at its first occurrence, and only where it occurs.
pub proof fn lemma_first_match(s: Seq<char>, sep: Seq<char>)
    ensures
        first_match(s, sep) matches Some(at) ==> {
            &&& at + sep.len() <= s.len()
            &&& s.subrange(at as int, (at + sep.len()) as int) == sep
            &&& forall|i: int|
                0 <= i < at ==> #[trigger] s.subrange(i, i + sep.len()) != sep
        },
        first_match(s, sep) is None ==> forall|i: int|
            0 <= i <= s.len() - sep.len() ==> #[trigger] s.subrange(i, i + sep.len()) != sep,
    decreases s.len(),
{
    if s.len() >= sep.len() {
        assert(s.take(sep.len() as int) =~= s.subrange(0, 0 + sep.len() as int));
        if s.take(sep.len() as int) != sep && s.len() > 0 {
            let rest = s.drop_first();
            lemma_first_match(rest, sep);
            assert forall|i: int| 1 <= i <= s.len() - sep.len() implies #[trigger] s.subrange(
                i,
                i + sep.len(),
            ) == rest.subrange(i - 1, i - 1 + sep.len()) by {
                assert(s.subrange(i, i + sep.len()) =~= rest.subrange(i - 1, i - 1 + sep.len()));
            }
            match first_match(rest, sep) {
                Some(j) => {
                    let at = j + 1;
                    assert(s.subrange(at as int, at as int + sep.len()) == rest.subrange(
                        j as int,
                        j as int + sep.len(),
                    ));
                    assert forall|i: int| 0 <= i < at implies #[trigger] s.subrange(
                        i,
                        i + sep.len(),
                    ) != sep by {
                        if i > 0 {
                            assert(s.subrange(i, i + sep.len()) == rest.subrange(
                                i - 1,
                                i - 1 + sep.len(),
                            ));
                        }
                    }
                },
                None => {
                    assert forall|i: int|
                        0 <= i <= s.len() - sep.len() implies #[trigger] s.subrange(
                        i,
                        i + sep.len(),
                    ) != sep by {
                        if i > 0 {
                            assert(s.subrange(i, i + sep.len()) == rest.subrange(
                                i - 1,
                                i - 1 + sep.len(),
                            ));
                        }
                    }
                },
            }
        }
    }
}

/// White space around a text that neither starts nor ends with any is taken away, all of it, and
/// nothing else.
pub proof fn lemma_trimmed(before: Seq<char>, core: Seq<char>, after: Seq<char>)
    requires
        forall|i: int| 0 <= i < before.len() ==> is_space(#[trigger] before[i]),
        forall|i: int| 0 <= i < after.len() ==> is_space(#[trigger] after[i]),
        core.len() > 0,
        !is_space(core[0]),
        !is_space(core.last()),
    ensures
        trimmed(before + core + after) == core,
{
    lemma_trim_start(before, core + after);
    assert(before + core + after =~= before + (core + after));
    lemma_trim_end(core, after);
}

/// Leading white space is taken away up to the first other character.
proof fn lemma_trim_start(before: Seq<char>, rest: Seq<char>)
    requires
        forall|i: int| 0 <= i < before.len() ==> is_space(#[trigger] before[i]),
        rest.len() > 0,
        !is_space(rest[0]),
    ensures
        trim_start(before + rest) == rest,
    decreases before.len(),
{
    if before.len() == 0 {
        assert(before + rest =~= rest);
    } else {
        assert((before + rest)[0] == before[0]);
        assert((before + rest).drop_first() =~= before.drop_first() + rest);
        lemma_trim_start(before.drop_first(), rest);
    }
}

/// Trailing white space is taken away down to the last other character.
proof fn lemma_trim_end(core: Seq<char>, after: Seq<char>)
    requires
        forall|i: int| 0 <= i < after.len() ==> is_space(#[trigger] after[i]),
        core.len() > 0,
        !is_space(core.last()),
    ensures
        trim_end(core + after) == core,
    decreases after.len(),
{
    if after.len() == 0 {
        assert(core + after =~= core);
    } else {
        assert((core + after).last() == after.last());
        assert((core + after).drop_last() =~= core + after.drop_last());
        lemma_trim_end(core, after.drop_last());
    }
}

/// The white space characters, by their numbers in Unicode.
pub proof fn lemma_space_characters(c: char)
    ensures
        is_space(c) <==> {
            let number = c as int;
            ||| 9 <= number <= 13
            ||| number == 32
            ||| number == 133
            ||| number == 160
            ||| number == 5760
            ||| 8192 <= number <= 8202
            ||| number == 8232
            ||| number == 8233
            ||| number == 8239
            ||| number == 8287
            ||| number == 12288
        },
{
}

} // verus!
