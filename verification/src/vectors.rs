//! Test vectors as text: lists of numbers in brackets.
use crate::chars::{
    digits_value, first_match, is_digit, is_space, lemma_first_match, number, number_digits,
    parse_u64, pieces_text, split, split_on, trim, trim_end, trim_start, trimmed,
};
use crate::goldilocks::GoldilocksField;
use crate::text::{decimal, join};
use vstd::prelude::*;

verus! {

/// The raw values of a run of elements.
pub open spec fn raw_values(elements: Seq<GoldilocksField>) -> Seq<u64> {
    elements.map_values(|element: GoldilocksField| element.0)
}

/// The raw values of leaves.
pub open spec fn leaf_values(leaves: Seq<Vec<GoldilocksField>>) -> Seq<Seq<u64>> {
    leaves.map_values(|leaf: Vec<GoldilocksField>| raw_values(leaf@))
}

/// The numbers of a comma-separated list, if all its items are numbers.
pub open spec fn list_numbers(s: Seq<char>) -> Option<Seq<u64>> {
    let items = split(s, seq![',']);
    if forall|i: int| 0 <= i < items.len() ==> number(trimmed(#[trigger] items[i])) is Some {
        Some(Seq::new(items.len(), |i: int| number(trimmed(items[i])).unwrap()))
    } else {
        None
    }
}

/// The lists among the pieces that hold nothing but numbers, in order.
pub open spec fn number_lists(pieces: Seq<Seq<char>>) -> Seq<Seq<u64>>
    decreases pieces.len(),
{
    if pieces.len() == 0 {
        Seq::empty()
    } else {
        let before = number_lists(pieces.drop_last());
        match list_numbers(pieces.last()) {
            Some(numbers) => before.push(numbers),
            None => before,
        }
    }
}

/// The text, without the white space around it, starts with `[[` and ends with `]]`.
pub open spec fn is_bracketed(text: Seq<char>) -> bool {
    let s = trimmed(text);
    &&& s.len() >= 4
    &&& s[0] == '[' && s[1] == '['
    &&& s[s.len() - 2] == ']' && s[s.len() - 1] == ']'
}

/// The separator between two lists: `], [`.
pub open spec fn list_separator() -> Seq<char> {
    seq![']', ',', ' ', '[']
}

/// The vectors that a text of the form `[[1, 2], [3, 4]]` holds. Lists with an item that is no
/// number are left out; a text that is not bracketed holds none.
pub open spec fn text_vectors(text: Seq<char>) -> Seq<Seq<u64>> {
    if is_bracketed(text) {
        let s = trimmed(text);
        number_lists(split(s.subrange(2, s.len() - 2), list_separator()))
    } else {
        Seq::empty()
    }
}

/// The characters of a text.
fn text_chars(text: &str) -> (chars: Vec<char>)
    ensures
        chars@ == text@,
{
    let mut chars: Vec<char> = Vec::new();
    for c in it: text.chars()
        invariant
            chars@ == it.seq().take(it.index()),
            it.seq() == text@,
    {
        chars.push(c);
        assert(it.seq().take(it.index() + 1) =~= it.seq().take(it.index()).push(c));
    }
    assert(text@.take(text@.len() as int) =~= text@);
    chars
}

/// Reads a comma-separated list of numbers.
fn parse_list(s: &[char]) -> (elements: Option<Vec<GoldilocksField>>)
    ensures
        match elements {
            Some(elements) => list_numbers(s@) == Some(raw_values(elements@)),
            None => list_numbers(s@) is None,
        },
{
    let mut comma: Vec<char> = Vec::new();
    comma.push(',');
    assert(comma@ =~= seq![',']);
    let items = split_on(s, comma.as_slice());
    let ghost texts = split(s@, seq![',']);
    let mut elements: Vec<GoldilocksField> = Vec::new();
    let mut i: usize = 0;
    while i < items.len()
        invariant
            i <= items@.len(),
            texts == split(s@, seq![',']),
            pieces_text(items@) == texts,
            elements@.len() == i,
            forall|k: int|
                0 <= k < i ==> number(trimmed(#[trigger] texts[k])) == Some(elements@[k].0),
        decreases items@.len() - i,
    {
        assert(texts[i as int] == items@[i as int]@);
        match parse_u64(trim(items[i])) {
            Some(value) => {
                elements.push(GoldilocksField::from_canonical_u64(value));
            },
            None => {
                assert(number(trimmed(texts[i as int])) is None);
                return None;
            },
        }
        i = i + 1;
    }
    assert(list_numbers(s@)->0 =~= raw_values(elements@));
    Some(elements)
}

/// Reads test vectors from a text of the form `[[1, 2], [3, 4]]`. Lists that hold anything but
/// numbers are skipped; a text that is not bracketed gives no vectors.
pub fn parse_test_vectors_from_str(data_str: &str) -> (vectors: Vec<Vec<GoldilocksField>>)
    ensures
        leaf_values(vectors@) == text_vectors(data_str@),
{
    let chars = text_chars(data_str);
    let data = trim(chars.as_slice());
    let len: usize = data.len();
    let mut vectors: Vec<Vec<GoldilocksField>> = Vec::new();
    if len < 4 || data[0] != '[' || data[1] != '[' || data[len - 2] != ']' || data[len - 1] != ']' {
        assert(leaf_values(vectors@) =~= text_vectors(data_str@));
        return vectors;
    }
    let inner = vstd::slice::slice_subrange(data, 2, len - 2);
    let mut separator: Vec<char> = Vec::new();
    separator.push(']');
    separator.push(',');
    separator.push(' ');
    separator.push('[');
    assert(separator@ =~= list_separator());
    let lists = split_on(inner, separator.as_slice());
    let ghost texts = split(inner@, list_separator());
    let mut i: usize = 0;
    assert(leaf_values(vectors@) =~= number_lists(texts.take(0)));
    while i < lists.len()
        invariant
            i <= lists@.len(),
            pieces_text(lists@) == texts,
            leaf_values(vectors@) == number_lists(texts.take(i as int)),
        decreases lists@.len() - i,
    {
        let ghost before = leaf_values(vectors@);
        proof {
            let next = texts.take(i + 1);
            assert(next.drop_last() =~= texts.take(i as int));
            assert(next.last() == lists@[i as int]@);
        }
        if let Some(elements) = parse_list(lists[i]) {
            let ghost numbers = raw_values(elements@);
            vectors.push(elements);
            assert(leaf_values(vectors@) =~= before.push(numbers));
        }
        i = i + 1;
    }
    assert(texts.take(texts.len() as int) =~= texts);
    vectors
}

/// The number of test vectors that a text holds.
pub fn get_test_vector_count(data_str: &str) -> (count: usize)
    ensures
        count == text_vectors(data_str@).len(),
{
    let vectors = parse_test_vectors_from_str(data_str);
    assert(leaf_values(vectors@).len() == vectors@.len());
    vectors.len()
}

/// The decimal notations of a run of numbers.
pub open spec fn decimals(numbers: Seq<u64>) -> Seq<Seq<char>> {
    numbers.map_values(|n: u64| decimal(n as nat))
}

/// A list of numbers, with `, ` between two of them.
pub open spec fn list_text(numbers: Seq<u64>) -> Seq<char> {
    join(decimals(numbers), seq![',', ' '])
}

/// Vectors as text: `[[1, 2], [3, 4]]`.
pub open spec fn vectors_text(vectors: Seq<Seq<u64>>) -> Seq<char> {
    seq!['[', '['] + join(
        vectors.map_values(|numbers: Seq<u64>| list_text(numbers)),
        list_separator(),
    ) + seq![']', ']']
}

/// The character does not occur in the text.
pub open spec fn lacks(s: Seq<char>, c: char) -> bool {
    forall|i: int| 0 <= i < s.len() ==> #[trigger] s[i] != c
}

/// A separator that starts with a character that the text before it lacks is found right there.
proof fn lemma_first_match_after(a: Seq<char>, sep: Seq<char>, b: Seq<char>)
    requires
        sep.len() > 0,
        lacks(a, sep[0]),
    ensures
        first_match(a + sep + b, sep) == Some(a.len()),
    decreases a.len(),
{
    let s = a + sep + b;
    if a.len() == 0 {
        assert(s.take(sep.len() as int) =~= sep);
    } else {
        assert(s.take(sep.len() as int)[0] == a[0]);
        assert(s.drop_first() =~= a.drop_first() + sep + b);
        lemma_first_match_after(a.drop_first(), sep, b);
    }
}

/// A separator whose first character the text lacks does not occur in it.
proof fn lemma_no_match(s: Seq<char>, sep: Seq<char>)
    requires
        sep.len() > 0,
        lacks(s, sep[0]),
    ensures
        first_match(s, sep) is None,
    decreases s.len(),
{
    if s.len() >= sep.len() {
        assert(s.take(sep.len() as int)[0] == s[0]);
        lemma_no_match(s.drop_first(), sep);
    }
}

/// Joining more pieces starts with the first one.
proof fn lemma_join_first(pieces: Seq<Seq<char>>, sep: Seq<char>)
    requires
        pieces.len() > 1,
    ensures
        join(pieces, sep) == pieces[0] + sep + join(pieces.drop_first(), sep),
    decreases pieces.len(),
{
    let tail = pieces.drop_first();
    if pieces.len() == 2 {
        assert(join(pieces.drop_last(), sep) == pieces[0]);
    } else {
        lemma_join_first(pieces.drop_last(), sep);
        assert(pieces.drop_last().drop_first() =~= tail.drop_last());
        assert(join(pieces, sep) =~= pieces[0] + sep + join(tail, sep));
    }
}

/// Splitting undoes joining, where the pieces lack the first character of the separator.
pub proof fn lemma_split_join(pieces: Seq<Seq<char>>, sep: Seq<char>)
    requires
        sep.len() > 0,
        pieces.len() > 0,
        forall|i: int| 0 <= i < pieces.len() ==> lacks(#[trigger] pieces[i], sep[0]),
    ensures
        split(join(pieces, sep), sep) == pieces,
    decreases pieces.len(),
{
    if pieces.len() == 1 {
        lemma_no_match(pieces[0], sep);
        assert(split(pieces[0], sep) =~= pieces);
    } else {
        let tail = pieces.drop_first();
        let rest = join(tail, sep);
        let s = join(pieces, sep);
        lemma_join_first(pieces, sep);
        lemma_first_match_after(pieces[0], sep, rest);
        assert(s.take(pieces[0].len() as int) =~= pieces[0]);
        assert(s.skip((pieces[0].len() + sep.len()) as int) =~= rest);
        lemma_split_join(tail, sep);
        assert(seq![pieces[0]] + tail =~= pieces);
    }
}

/// A character that pieces and separator lack does not come up when they are joined.
proof fn lemma_join_lacks(pieces: Seq<Seq<char>>, sep: Seq<char>, c: char)
    requires
        lacks(sep, c),
        forall|i: int| 0 <= i < pieces.len() ==> lacks(#[trigger] pieces[i], c),
    ensures
        lacks(join(pieces, sep), c),
    decreases pieces.len(),
{
    if pieces.len() > 1 {
        assert forall|i: int| 0 <= i < pieces.len() - 1 implies lacks(
            #[trigger] pieces.drop_last()[i],
            c,
        ) by {
            assert(lacks(pieces[i], c));
        }
        lemma_join_lacks(pieces.drop_last(), sep, c);
        assert(lacks(pieces[pieces.len() - 1], c));
    }
}

/// A decimal notation consists of digits, whose value is the number.
pub proof fn lemma_decimal_digits(n: nat)
    ensures
        decimal(n).len() > 0,
        forall|i: int| 0 <= i < decimal(n).len() ==> is_digit(#[trigger] decimal(n)[i]),
        digits_value(decimal(n)) == n,
    decreases n,
{
    let d = decimal(n);
    if n < 10 {
        assert(d.drop_last() =~= Seq::empty());
        assert(digits_value(d.drop_last()) == 0);
    } else {
        lemma_decimal_digits(n / 10);
        assert(d.drop_last() =~= decimal(n / 10));
    }
}

/// Reading a decimal notation, with or without a space before it, gives the number.
proof fn lemma_decimal_number(n: u64)
    ensures
        number(trimmed(decimal(n as nat))) == Some(n),
        number(trimmed(seq![' '] + decimal(n as nat))) == Some(n),
        lacks(decimal(n as nat), ','),
        lacks(decimal(n as nat), ']'),
{
    let d = decimal(n as nat);
    lemma_decimal_digits(n as nat);
    assert(is_digit(d[0]) && is_digit(d[d.len() - 1]));
    assert(trim_start(d) == d);
    assert(trim_end(d) == d);
    assert((seq![' '] + d).drop_first() =~= d);
    assert(is_space((seq![' '] + d)[0]));
    assert(number_digits(d) == d);
}

/// Reading a list back gives its numbers.
proof fn lemma_list_round_trip(numbers: Seq<u64>)
    requires
        numbers.len() > 0,
    ensures
        list_numbers(list_text(numbers)) == Some(numbers),
        lacks(list_text(numbers), ']'),
{
    let plain = decimals(numbers);
    let spaced = Seq::new(
        numbers.len(),
        |i: int| if i == 0 {
            plain[0]
        } else {
            seq![' '] + plain[i]
        },
    );
    assert forall|i: int| 0 <= i < numbers.len() implies lacks(#[trigger] spaced[i], ',') && number(
        trimmed(spaced[i]),
    ) == Some(numbers[i]) by {
        lemma_decimal_number(numbers[i]);
    }
    lemma_join_spaced(plain, spaced);
    lemma_split_join(spaced, seq![',']);
    assert(list_numbers(list_text(numbers))->0 =~= numbers);
    assert forall|i: int| 0 <= i < numbers.len() implies lacks(#[trigger] plain[i], ']') by {
        lemma_decimal_number(numbers[i]);
    }
    lemma_join_lacks(plain, seq![',', ' '], ']');
}

/// A space after each comma may as well stand at the start of the next piece.
proof fn lemma_join_spaced(plain: Seq<Seq<char>>, spaced: Seq<Seq<char>>)
    requires
        plain.len() == spaced.len(),
        plain.len() > 0,
        spaced[0] == plain[0],
        forall|i: int| 0 < i < plain.len() ==> #[trigger] spaced[i] == seq![' '] + plain[i],
    ensures
        join(plain, seq![',', ' ']) == join(spaced, seq![',']),
    decreases plain.len(),
{
    if plain.len() > 1 {
        lemma_join_spaced(plain.drop_last(), spaced.drop_last());
        assert(spaced[spaced.len() - 1] == seq![' '] + plain.last());
        assert(join(plain, seq![',', ' ']) =~= join(spaced, seq![',']));
    }
}

/// Pieces that each hold a list of numbers hold these lists.
proof fn lemma_number_lists(pieces: Seq<Seq<char>>, vectors: Seq<Seq<u64>>)
    requires
        pieces.len() == vectors.len(),
        forall|i: int|
            0 <= i < pieces.len() ==> list_numbers(#[trigger] pieces[i]) == Some(vectors[i]),
    ensures
        number_lists(pieces) == vectors,
    decreases pieces.len(),
{
    if pieces.len() > 0 {
        lemma_number_lists(pieces.drop_last(), vectors.drop_last());
        assert(list_numbers(pieces[pieces.len() - 1]) == Some(vectors.last()));
        assert(vectors.drop_last().push(vectors.last()) =~= vectors);
    }
}

/// Reading vectors back from their text gives the same vectors, if none of them is empty.
pub proof fn lemma_text_round_trip(vectors: Seq<Seq<u64>>)
    requires
        forall|i: int| 0 <= i < vectors.len() ==> (#[trigger] vectors[i]).len() > 0,
    ensures
        text_vectors(vectors_text(vectors)) == vectors,
{
    let lists = vectors.map_values(|numbers: Seq<u64>| list_text(numbers));
    let inner = join(lists, list_separator());
    let text = vectors_text(vectors);
    assert(trim_start(text) == text);
    assert(trim_end(text) == text);
    assert(text.subrange(2, text.len() - 2) =~= inner);
    if vectors.len() == 0 {
        let items = split(inner, seq![',']);
        assert(items =~= seq![inner]);
        assert(items[0].len() == 0);
        assert(number(trimmed(items[0])) is None);
        let pieces = split(inner, list_separator());
        assert(pieces.last() == inner);
        assert(list_numbers(inner) is None);
        assert(number_lists(pieces.drop_last()) =~= Seq::empty());
        assert(number_lists(pieces) =~= vectors);
    } else {
        assert forall|i: int| 0 <= i < lists.len() implies lacks(#[trigger] lists[i], ']')
            && list_numbers(lists[i]) == Some(vectors[i]) by {
            lemma_list_round_trip(vectors[i]);
        }
        lemma_split_join(lists, list_separator());
        lemma_number_lists(lists, vectors);
    }
}

/// Splitting loses nothing: the pieces, joined again, are the text, and in none of them the
/// separator occurs.
pub proof fn lemma_join_split(s: Seq<char>, sep: Seq<char>)
    requires
        sep.len() > 0,
    ensures
        split(s, sep).len() > 0,
        join(split(s, sep), sep) == s,
        forall|i: int|
            0 <= i < split(s, sep).len() ==> first_match(#[trigger] split(s, sep)[i], sep) is None,
    decreases s.len(),
{
    lemma_first_match(s, sep);
    let pieces = split(s, sep);
    match first_match(s, sep) {
        Some(at) => {
            let head = s.take(at as int);
            let tail = s.skip((at + sep.len()) as int);
            lemma_join_split(tail, sep);
            assert(pieces == seq![head] + split(tail, sep));
            assert(pieces.drop_first() =~= split(tail, sep));
            lemma_join_first(pieces, sep);
            assert(head + sep + tail =~= s);
            assert(first_match(head, sep) is None) by {
                lemma_first_match(head, sep);
                if let Some(i) = first_match(head, sep) {
                    assert(s.subrange(i as int, i as int + sep.len()) =~= head.subrange(
                        i as int,
                        i as int + sep.len(),
                    ));
                }
            }
            assert forall|i: int| 0 <= i < pieces.len() implies first_match(
                #[trigger] pieces[i],
                sep,
            ) is None by {
                if i > 0 {
                    assert(pieces[i] == split(tail, sep)[i - 1]);
                }
            }
        },
        None => {
            assert(pieces =~= seq![s]);
        },
    }
}

/// What is read of lists does not depend on the other lists: lists that hold anything but numbers
/// give nothing, and all others give their numbers, in order.
pub proof fn lemma_lists_read_one_by_one(before: Seq<Seq<char>>, list: Seq<char>)
    ensures
        list_numbers(list) is None ==> number_lists(before.push(list)) == number_lists(before),
        list_numbers(list) matches Some(numbers) ==> number_lists(before.push(list))
            == number_lists(before).push(numbers),
        number_lists(Seq::<Seq<char>>::empty()).len() == 0,
        list_numbers(list) matches Some(numbers) ==> {
            &&& numbers.len() == split(list, seq![',']).len()
            &&& forall|k: int|
                0 <= k < numbers.len() ==> number(trimmed(split(list, seq![','])[k])) == Some(
                    #[trigger] numbers[k],
                )
        },
        list_numbers(list) is None ==> exists|k: int|
            0 <= k < split(list, seq![',']).len() && number(
                trimmed(#[trigger] split(list, seq![','])[k]),
            ) is None,
{
    assert(before.push(list).drop_last() =~= before);
}

/// The raw values of leaves are those of their elements, leaf by leaf.
pub proof fn lemma_leaf_values(leaves: Seq<Vec<GoldilocksField>>, l: int, e: int)
    requires
        0 <= l < leaves.len(),
    ensures
        leaf_values(leaves).len() == leaves.len(),
        leaf_values(leaves)[l].len() == leaves[l]@.len(),
        0 <= e < leaves[l]@.len() ==> leaf_values(leaves)[l][e] == leaves[l]@[e].0,
{
}

/// Vectors are read just where the text, without the white space around it, starts with two opening
/// brackets and ends with two closing ones; the lists between them lie between `], [`.
pub proof fn lemma_vectors_between_brackets(text: Seq<char>)
    ensures
        ({
            let s = trimmed(text);
            if s.len() >= 4 && s[0] == '[' && s[1] == '[' && s[s.len() - 2] == ']' && s[s.len() - 1]
                == ']' {
                text_vectors(text) == number_lists(
                    split(s.subrange(2, s.len() - 2), seq![']', ',', ' ', '[']),
                )
            } else {
                text_vectors(text).len() == 0
            }
        }),
{
}

} // verus!
