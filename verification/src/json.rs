//! JSON documents, written without spaces: strings, numbers, lists of them, and
//! the proof that a document tells what it was made from.

use crate::text::{decimal, digit};
use vstd::prelude::*;
use vstd::utf8::{encode_utf8, encode_utf8_decode_utf8};

verus! {

/// A character inside of a string.
pub open spec fn json_char(c: char) -> Seq<char> {
    if c == '"' || c == '\\' {
        seq!['\\', c]
    } else if c as int == 8 {
        seq!['\\', 'b']
    } else if c as int == 9 {
        seq!['\\', 't']
    } else if c as int == 10 {
        seq!['\\', 'n']
    } else if c as int == 12 {
        seq!['\\', 'f']
    } else if c as int == 13 {
        seq!['\\', 'r']
    } else if (c as int) < 32 {
        seq!['\\', 'u', '0', '0', digit(c as int / 16), digit(c as int % 16)]
    } else {
        seq![c]
    }
}

/// The characters of a string, without the quotes.
pub open spec fn json_chars(s: Seq<char>) -> Seq<char>
    decreases s.len(),
{
    if s.len() == 0 {
        Seq::empty()
    } else {
        json_char(s[0]) + json_chars(s.drop_first())
    }
}

/// A string.
pub open spec fn json_string(s: Seq<char>) -> Seq<char> {
    seq!['"'] + json_chars(s) + seq!['"']
}

/// A field of an object.
pub open spec fn json_field(name: Seq<char>, value: Seq<char>) -> Seq<char> {
    json_string(name) + seq![':'] + value
}

/// A list from behind one of its items to its end.
pub open spec fn json_list_rest(items: Seq<Seq<char>>) -> Seq<char>
    decreases items.len(),
{
    if items.len() == 0 {
        seq![']']
    } else {
        seq![','] + items[0] + json_list_rest(items.drop_first())
    }
}

/// A list of items that are documents already.
pub open spec fn json_list(items: Seq<Seq<char>>) -> Seq<char> {
    if items.len() == 0 {
        seq!['[', ']']
    } else {
        seq!['['] + items[0] + json_list_rest(items.drop_first())
    }
}

/// A byte string, as a list of numbers.
pub open spec fn json_bytes(bytes: Seq<u8>) -> Seq<char> {
    json_list(bytes.map_values(|b: u8| decimal(b as nat)))
}

/// A list of byte strings.
pub open spec fn json_byte_strings(strings: Seq<Seq<u8>>) -> Seq<char> {
    json_list(strings.map_values(|s: Seq<u8>| json_bytes(s)))
}

/// An optional byte string.
pub open spec fn json_opt_bytes(bytes: Option<Seq<u8>>) -> Seq<char> {
    match bytes {
        Some(bytes) => json_bytes(bytes),
        None => seq!['n', 'u', 'l', 'l'],
    }
}

/// An enum's variant of this name with this value in it.
pub open spec fn json_variant(name: Seq<char>, value: Seq<char>) -> Seq<char> {
    seq!['{'] + json_string(name) + seq![':'] + value + seq!['}']
}

/// Whether a decimal digit stands here.
pub open spec fn is_digit(c: char) -> bool {
    48 <= c as int <= 57
}

/// Whether a number that stands before `rest` ends there.
pub open spec fn stops(rest: Seq<char>) -> bool {
    rest.len() > 0 && !is_digit(rest[0])
}

/// Characters of which none has to be escaped stand for themselves.
pub proof fn lemma_simple_chars(s: Seq<char>)
    requires
        forall|i: int| 0 <= i < s.len() ==> json_char(#[trigger] s[i]) == seq![s[i]],
    ensures
        json_chars(s) == s,
    decreases s.len(),
{
    if s.len() > 0 {
        assert forall|i: int| 0 <= i < s.drop_first().len() implies json_char(
            #[trigger] s.drop_first()[i],
        ) == seq![s.drop_first()[i]] by {
            assert(json_char(s[i + 1]) == seq![s[i + 1]]);
        }
        lemma_simple_chars(s.drop_first());
        assert(seq![s[0]] + s.drop_first() =~= s);
    }
}

/// What follows equal beginnings of equal texts is equal.
pub proof fn lemma_same_rest(start: Seq<char>, a: Seq<char>, b: Seq<char>)
    requires
        start + a == start + b,
    ensures
        a == b,
{
    assert(a =~= (start + a).skip(start.len() as int));
    assert(b =~= (start + b).skip(start.len() as int));
}

proof fn lemma_decimal_digits(n: nat)
    ensures
        decimal(n).len() > 0,
        forall|i: int| 0 <= i < decimal(n).len() ==> is_digit(#[trigger] decimal(n)[i]),
    decreases n,
{
    if n >= 10 {
        lemma_decimal_digits(n / 10);
    }
}

/// Numbers are equal where their documents are.
pub proof fn lemma_decimal_tells(a: nat, b: nat)
    requires
        decimal(a) == decimal(b),
    ensures
        a == b,
    decreases a,
{
    lemma_decimal_digits(a / 10);
    lemma_decimal_digits(b / 10);
    let text = decimal(a);
    assert(text.last() == digit((a % 10) as int));
    assert(text.last() == digit((b % 10) as int));
    if a >= 10 && b >= 10 {
        assert(text.drop_last() =~= decimal(a / 10));
        assert(text.drop_last() =~= decimal(b / 10));
        lemma_decimal_tells(a / 10, b / 10);
    }
}

/// Texts that begin with numbers are equal only where the numbers are.
pub proof fn lemma_number_tells(a: nat, rest_a: Seq<char>, b: nat, rest_b: Seq<char>)
    requires
        stops(rest_a),
        stops(rest_b),
        decimal(a) + rest_a == decimal(b) + rest_b,
    ensures
        a == b,
        rest_a == rest_b,
{
    let text = decimal(a) + rest_a;
    let len_a = decimal(a).len() as int;
    let len_b = decimal(b).len() as int;
    lemma_decimal_digits(a);
    lemma_decimal_digits(b);
    if len_a < len_b {
        assert(text[len_a] == rest_a[0]);
        assert(text[len_a] == decimal(b)[len_a]);
    } else if len_b < len_a {
        assert(text[len_b] == rest_b[0]);
        assert(text[len_b] == decimal(a)[len_b]);
    }
    assert(decimal(a) =~= text.take(len_a));
    assert(decimal(b) =~= text.take(len_a));
    lemma_decimal_tells(a, b);
    lemma_same_rest(decimal(a), rest_a, rest_b);
}

proof fn lemma_char_tells(a: char, rest_a: Seq<char>, b: char, rest_b: Seq<char>)
    requires
        json_char(a) + rest_a == json_char(b) + rest_b,
    ensures
        a == b,
        rest_a == rest_b,
{
    let text = json_char(a) + rest_a;
    assert(text[0] == json_char(a)[0]);
    assert(text[0] == json_char(b)[0]);
    if json_char(a).len() > 1 {
        assert(text[1] == json_char(a)[1]);
        assert(text[1] == json_char(b)[1]);
        if json_char(a).len() == 6 {
            assert(text[4] == json_char(a)[4]);
            assert(text[4] == json_char(b)[4]);
            assert(text[5] == json_char(a)[5]);
            assert(text[5] == json_char(b)[5]);
        }
    }
    lemma_same_rest(json_char(a), rest_a, rest_b);
}

proof fn lemma_chars_tell(a: Seq<char>, rest_a: Seq<char>, b: Seq<char>, rest_b: Seq<char>)
    requires
        json_chars(a) + (seq!['"'] + rest_a) == json_chars(b) + (seq!['"'] + rest_b),
    ensures
        a == b,
        rest_a == rest_b,
    decreases a.len(),
{
    let end_a = seq!['"'] + rest_a;
    let end_b = seq!['"'] + rest_b;
    let text = json_chars(a) + end_a;
    if a.len() == 0 {
        assert(text[0] == '"');
    } else {
        assert(text[0] == json_char(a[0])[0]);
    }
    if b.len() == 0 {
        assert(text[0] == '"');
    } else {
        assert(text[0] == json_char(b[0])[0]);
    }
    if a.len() == 0 {
        assert(a =~= b);
        lemma_same_rest(json_chars(a) + seq!['"'], rest_a, rest_b);
    } else {
        let after_a = json_chars(a.drop_first()) + end_a;
        let after_b = json_chars(b.drop_first()) + end_b;
        assert(text =~= json_char(a[0]) + after_a);
        assert(text =~= json_char(b[0]) + after_b);
        lemma_char_tells(a[0], after_a, b[0], after_b);
        lemma_chars_tell(a.drop_first(), rest_a, b.drop_first(), rest_b);
        assert(a =~= seq![a[0]] + a.drop_first());
        assert(b =~= seq![b[0]] + b.drop_first());
    }
}

/// Texts that begin with strings are equal only where the strings are.
pub proof fn lemma_string_tells(a: Seq<char>, rest_a: Seq<char>, b: Seq<char>, rest_b: Seq<char>)
    requires
        json_string(a) + rest_a == json_string(b) + rest_b,
    ensures
        a == b,
        rest_a == rest_b,
{
    let inner_a = json_chars(a) + (seq!['"'] + rest_a);
    let inner_b = json_chars(b) + (seq!['"'] + rest_b);
    assert(json_string(a) + rest_a =~= seq!['"'] + inner_a);
    assert(json_string(b) + rest_b =~= seq!['"'] + inner_b);
    lemma_same_rest(seq!['"'], inner_a, inner_b);
    lemma_chars_tell(a, rest_a, b, rest_b);
}

/// Whether documents of this kind can stand in a list: they are not mistaken for
/// its end, and texts that begin with two of them are equal only where what they
/// were made from is.
spec fn fits_list<A>(write: spec_fn(A) -> Seq<char>) -> bool {
    &&& forall|x: A| (#[trigger] write(x)).len() > 0 && write(x)[0] != ']'
    &&& forall|x: A, rest_x: Seq<char>, y: A, rest_y: Seq<char>|
        stops(rest_x) && stops(rest_y) && #[trigger] (write(x) + rest_x) == #[trigger] (write(y)
            + rest_y) ==> x == y && rest_x == rest_y
}

proof fn lemma_list_rest_tells<A>(
    write: spec_fn(A) -> Seq<char>,
    a: Seq<A>,
    rest_a: Seq<char>,
    b: Seq<A>,
    rest_b: Seq<char>,
)
    requires
        fits_list(write),
        json_list_rest(a.map_values(write)) + rest_a == json_list_rest(b.map_values(write))
            + rest_b,
    ensures
        a == b,
        rest_a == rest_b,
    decreases a.len(),
{
    let items_a = a.map_values(write);
    let items_b = b.map_values(write);
    let text = json_list_rest(items_a) + rest_a;
    if a.len() == 0 {
        assert(text[0] == ']');
    } else {
        assert(text[0] == ',');
    }
    if b.len() == 0 {
        assert(text[0] == ']');
    } else {
        assert(text[0] == ',');
    }
    if a.len() == 0 {
        assert(a =~= b);
        lemma_same_rest(json_list_rest(items_a), rest_a, rest_b);
    } else {
        let tail_a = a.drop_first();
        let tail_b = b.drop_first();
        assert(items_a.drop_first() =~= tail_a.map_values(write));
        assert(items_b.drop_first() =~= tail_b.map_values(write));
        let after_a = json_list_rest(tail_a.map_values(write)) + rest_a;
        let after_b = json_list_rest(tail_b.map_values(write)) + rest_b;
        assert(text =~= seq![','] + (write(a[0]) + after_a));
        assert(text =~= seq![','] + (write(b[0]) + after_b));
        lemma_same_rest(seq![','], write(a[0]) + after_a, write(b[0]) + after_b);
        assert(stops(after_a));
        assert(stops(after_b));
        lemma_list_rest_tells(write, tail_a, rest_a, tail_b, rest_b);
        assert(a =~= seq![a[0]] + tail_a);
        assert(b =~= seq![b[0]] + tail_b);
    }
}

proof fn lemma_list_tells<A>(
    write: spec_fn(A) -> Seq<char>,
    a: Seq<A>,
    rest_a: Seq<char>,
    b: Seq<A>,
    rest_b: Seq<char>,
)
    requires
        fits_list(write),
        json_list(a.map_values(write)) + rest_a == json_list(b.map_values(write)) + rest_b,
    ensures
        a == b,
        rest_a == rest_b,
{
    let items_a = a.map_values(write);
    let items_b = b.map_values(write);
    let text = json_list(items_a) + rest_a;
    if a.len() == 0 {
        assert(text[1] == ']');
    } else {
        assert(text[1] == write(a[0])[0]);
    }
    if b.len() == 0 {
        assert(text[1] == ']');
    } else {
        assert(text[1] == write(b[0])[0]);
    }
    if a.len() == 0 {
        assert(a =~= b);
        lemma_same_rest(json_list(items_a), rest_a, rest_b);
    } else {
        // A list is a bracket and what would follow a comma.
        let list_a = json_list_rest(items_a) + rest_a;
        let list_b = json_list_rest(items_b) + rest_b;
        assert(list_a =~= seq![','] + text.skip(1));
        assert(list_b =~= seq![','] + text.skip(1));
        lemma_list_rest_tells(write, a, rest_a, b, rest_b);
    }
}

/// Texts that begin with byte strings are equal only where the byte strings are.
pub proof fn lemma_bytes_tell(a: Seq<u8>, rest_a: Seq<char>, b: Seq<u8>, rest_b: Seq<char>)
    requires
        json_bytes(a) + rest_a == json_bytes(b) + rest_b,
    ensures
        a == b,
        rest_a == rest_b,
{
    let write = |b: u8| decimal(b as nat);
    assert forall|x: u8| (#[trigger] write(x)).len() > 0 && write(x)[0] != ']' by {
        lemma_decimal_digits(x as nat);
        assert(is_digit(write(x)[0]));
    }
    assert forall|x: u8, rest_x: Seq<char>, y: u8, rest_y: Seq<char>|
        stops(rest_x) && stops(rest_y) && #[trigger] (write(x) + rest_x) == #[trigger] (write(y)
            + rest_y) implies x == y && rest_x == rest_y by {
        lemma_number_tells(x as nat, rest_x, y as nat, rest_y);
    }
    lemma_list_tells(write, a, rest_a, b, rest_b);
}

/// Texts that begin with lists of byte strings are equal only where the lists
/// are.
pub proof fn lemma_byte_strings_tell(
    a: Seq<Seq<u8>>,
    rest_a: Seq<char>,
    b: Seq<Seq<u8>>,
    rest_b: Seq<char>,
)
    requires
        json_byte_strings(a) + rest_a == json_byte_strings(b) + rest_b,
    ensures
        a == b,
        rest_a == rest_b,
{
    let write = |s: Seq<u8>| json_bytes(s);
    assert forall|x: Seq<u8>, rest_x: Seq<char>, y: Seq<u8>, rest_y: Seq<char>|
        stops(rest_x) && stops(rest_y) && #[trigger] (write(x) + rest_x) == #[trigger] (write(y)
            + rest_y) implies x == y && rest_x == rest_y by {
        lemma_bytes_tell(x, rest_x, y, rest_y);
    }
    lemma_list_tells(write, a, rest_a, b, rest_b);
}

/// Variants are equal only where their names and values are.
pub proof fn lemma_variant_tells(
    name_a: Seq<char>,
    value_a: Seq<char>,
    name_b: Seq<char>,
    value_b: Seq<char>,
)
    requires
        json_variant(name_a, value_a) == json_variant(name_b, value_b),
    ensures
        name_a == name_b,
        value_a == value_b,
{
    let end_a = seq![':'] + value_a + seq!['}'];
    let end_b = seq![':'] + value_b + seq!['}'];
    assert(json_variant(name_a, value_a) =~= seq!['{'] + (json_string(name_a) + end_a));
    assert(json_variant(name_b, value_b) =~= seq!['{'] + (json_string(name_b) + end_b));
    lemma_same_rest(seq!['{'], json_string(name_a) + end_a, json_string(name_b) + end_b);
    lemma_string_tells(name_a, end_a, name_b, end_b);
    assert(value_a =~= end_a.subrange(1, end_a.len() - 1));
    assert(value_b =~= end_b.subrange(1, end_b.len() - 1));
}

/// Optional byte strings are equal where their documents are.
pub proof fn lemma_opt_bytes_tell(a: Option<Seq<u8>>, b: Option<Seq<u8>>)
    requires
        json_opt_bytes(a) == json_opt_bytes(b),
    ensures
        a == b,
{
    assert(a is None <==> json_opt_bytes(a)[0] == 'n');
    assert(b is None <==> json_opt_bytes(b)[0] == 'n');
    if a is Some {
        lemma_bytes_tell(a->0, Seq::empty(), b->0, Seq::empty());
    }
}

/// Texts with the same bytes are equal.
pub proof fn lemma_utf8_tells(a: Seq<char>, b: Seq<char>)
    requires
        encode_utf8(a) == encode_utf8(b),
    ensures
        a == b,
{
    encode_utf8_decode_utf8(a);
    encode_utf8_decode_utf8(b);
}

} // verus!
