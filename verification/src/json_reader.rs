//! What a JSON document says: a reader of documents without spaces, which knows
//! nothing of who wrote them, and the proof that what is written is read back.

use crate::json::{
    json_bytes, json_byte_strings, json_char, json_chars, json_field, json_list, json_list_rest,
    json_opt_bytes, json_string, json_variant, stops,
};
use crate::text::{decimal, digit};
use vstd::prelude::*;
use vstd::utf8::{decode_utf8, encode_utf8, encode_utf8_decode_utf8, encode_utf8_valid_utf8, valid_utf8};

verus! {

/// A value that a document can hold.
pub enum Json {
    Null,
    Number(nat),
    Text(Seq<char>),
    List(Seq<Json>),
    /// The fields, by name and in order.
    Object(Seq<(Seq<char>, Json)>),
}

/// Whether the text begins with this character.
pub open spec fn starts(text: Seq<char>, c: char) -> bool {
    text.len() > 0 && text[0] == c
}

/// Whether the text begins with a decimal digit.
pub open spec fn starts_number(text: Seq<char>) -> bool {
    text.len() > 0 && '0' as int <= text[0] as int <= '9' as int
}

/// The value of the digits at the beginning of the text, behind others of this
/// value, and what follows them.
pub open spec fn read_digits(text: Seq<char>, value: nat) -> (nat, Seq<char>)
    decreases text.len(),
{
    if starts_number(text) {
        read_digits(text.drop_first(), (10 * value + (text[0] as int - '0' as int)) as nat)
    } else {
        (value, text)
    }
}

/// The value of a hexadecimal digit.
pub open spec fn hex_value(c: char) -> Option<int> {
    if '0' as int <= c as int <= '9' as int {
        Some(c as int - '0' as int)
    } else if 'a' as int <= c as int <= 'f' as int {
        Some(c as int - 'a' as int + 10)
    } else {
        None
    }
}

/// The character that a backslash and this letter stand for.
pub open spec fn escaped_char(c: char) -> Option<char> {
    if c == '"' || c == '\\' || c == '/' {
        Some(c)
    } else if c == 'b' {
        Some(8 as char)
    } else if c == 't' {
        Some(9 as char)
    } else if c == 'n' {
        Some(10 as char)
    } else if c == 'f' {
        Some(12 as char)
    } else if c == 'r' {
        Some(13 as char)
    } else {
        None
    }
}

/// A string from behind its first quote, and what follows it. Of the characters
/// that are written by their number, those below 256 are read.
pub open spec fn read_text(text: Seq<char>) -> Option<(Seq<char>, Seq<char>)>
    decreases text.len(),
{
    if text.len() == 0 {
        None
    } else if text[0] == '"' {
        Some((Seq::empty(), text.drop_first()))
    } else if text[0] != '\\' {
        match read_text(text.drop_first()) {
            Some((more, rest)) => if text[0] as int >= 32 {
                Some((seq![text[0]] + more, rest))
            } else {
                None
            },
            None => None,
        }
    } else if text.len() >= 6 && text[1] == 'u' {
        match (hex_value(text[4]), hex_value(text[5]), read_text(text.skip(6))) {
            (Some(high), Some(low), Some((more, rest))) => if text[2] == '0' && text[3] == '0' {
                Some((seq![(16 * high + low) as char] + more, rest))
            } else {
                None
            },
            _ => None,
        }
    } else if text.len() >= 2 {
        match (escaped_char(text[1]), read_text(text.skip(2))) {
            (Some(c), Some((more, rest))) => Some((seq![c] + more, rest)),
            _ => None,
        }
    } else {
        None
    }
}

/// The value at the beginning of the text, and what follows it.
pub open spec fn read_value(text: Seq<char>) -> Option<(Json, Seq<char>)>
    decreases text.len(), 0int,
{
    if starts(text, '"') {
        match read_text(text.drop_first()) {
            Some((s, rest)) => Some((Json::Text(s), rest)),
            None => None,
        }
    } else if starts_number(text) {
        let (value, rest) = read_digits(text, 0);
        if text[0] == '0' && starts_number(text.drop_first()) {
            None
        } else {
            Some((Json::Number(value), rest))
        }
    } else if starts(text, '[') {
        if starts(text.drop_first(), ']') {
            Some((Json::List(Seq::empty()), text.skip(2)))
        } else {
            match read_items(text.drop_first()) {
                Some((items, rest)) => Some((Json::List(items), rest)),
                None => None,
            }
        }
    } else if starts(text, '{') {
        if starts(text.drop_first(), '}') {
            Some((Json::Object(Seq::empty()), text.skip(2)))
        } else {
            match read_fields(text.drop_first()) {
                Some((fields, rest)) => Some((Json::Object(fields), rest)),
                None => None,
            }
        }
    } else if text.len() >= 4 && text.take(4) == seq!['n', 'u', 'l', 'l'] {
        Some((Json::Null, text.skip(4)))
    } else {
        None
    }
}

/// The items of a list from here to its end, and what follows it.
pub open spec fn read_items(text: Seq<char>) -> Option<(Seq<Json>, Seq<char>)>
    decreases text.len(), 1int,
{
    match read_value(text) {
        Some((item, rest)) => if rest.len() >= text.len() {
            None
        } else if starts(rest, ']') {
            Some((seq![item], rest.drop_first()))
        } else if starts(rest, ',') {
            match read_items(rest.drop_first()) {
                Some((items, end)) => Some((seq![item] + items, end)),
                None => None,
            }
        } else {
            None
        },
        None => None,
    }
}

/// The fields of an object from here to its end, and what follows it.
pub open spec fn read_fields(text: Seq<char>) -> Option<(Seq<(Seq<char>, Json)>, Seq<char>)>
    decreases text.len(), 1int,
{
    if !starts(text, '"') {
        None
    } else {
        match read_text(text.drop_first()) {
            Some((name, after_name)) => if !starts(after_name, ':') || after_name.len()
                >= text.len() {
                None
            } else {
                match read_value(after_name.drop_first()) {
                    Some((value, rest)) => if rest.len() >= text.len() {
                        None
                    } else if starts(rest, '}') {
                        Some((seq![(name, value)], rest.drop_first()))
                    } else if starts(rest, ',') {
                        match read_fields(rest.drop_first()) {
                            Some((fields, end)) => Some((seq![(name, value)] + fields, end)),
                            None => None,
                        }
                    } else {
                        None
                    },
                    None => None,
                }
            },
            None => None,
        }
    }
}

/// The value that a text holds and nothing besides.
pub open spec fn read_whole(text: Seq<char>) -> Option<Json> {
    match read_value(text) {
        Some((value, rest)) => if rest.len() == 0 {
            Some(value)
        } else {
            None
        },
        None => None,
    }
}

/// The value that a document holds.
pub open spec fn read_document(bytes: Seq<u8>) -> Option<Json> {
    if valid_utf8(bytes) {
        read_whole(decode_utf8(bytes))
    } else {
        None
    }
}

/// The bytes as a list of numbers.
pub open spec fn byte_list(bytes: Seq<u8>) -> Json {
    Json::List(bytes.map_values(|b: u8| Json::Number(b as nat)))
}

proof fn lemma_digits_run_on(n: nat, rest: Seq<char>)
    ensures
        read_digits(decimal(n) + rest, 0) == read_digits(rest, n),
        decimal(n).len() > 0,
        starts_number(decimal(n) + rest),
        n >= 10 ==> decimal(n)[0] != '0',
        n < 10 ==> decimal(n).len() == 1,
        n > 0 ==> decimal(n)[0] != '0',
    decreases n,
{
    let d = seq![digit((n % 10) as int)];
    assert((d + rest).drop_first() =~= rest);
    if n < 10 {
        assert(decimal(n) =~= d);
    } else {
        lemma_digits_run_on(n / 10, d + rest);
        assert(decimal(n) + rest =~= decimal(n / 10) + (d + rest));
        assert(10 * (n / 10) + n % 10 == n);
    }
}

/// A number that was written is read back.
pub proof fn lemma_read_number(n: nat, rest: Seq<char>)
    requires
        stops(rest),
    ensures
        read_value(decimal(n) + rest) == Some((Json::Number(n), rest)),
{
    lemma_digits_run_on(n, rest);
    let text = decimal(n) + rest;
    assert(text[0] == decimal(n)[0]);
    if text[0] == '0' {
        assert(n == 0);
        assert(text.drop_first() =~= rest);
    }
}

proof fn lemma_hex_digit(d: int)
    requires
        0 <= d < 16,
    ensures
        hex_value(digit(d)) == Some(d),
{
}

proof fn lemma_read_char(c: char, more: Seq<char>)
    ensures
        read_text(json_char(c) + more) == (match read_text(more) {
            Some((s, rest)) => Some((seq![c] + s, rest)),
            None => None,
        }),
{
    let text = json_char(c) + more;
    let n = json_char(c).len() as int;
    assert(text.skip(n) =~= more);
    assert(text[0] == json_char(c)[0]);
    if n == 1 {
        assert(text.drop_first() =~= more);
    } else {
        assert(text[1] == json_char(c)[1]);
        if n == 6 {
            assert(0 <= c as int && (c as int) < 32);
            assert(text[2] == json_char(c)[2]);
            assert(text[3] == json_char(c)[3]);
            assert(text[4] == json_char(c)[4]);
            assert(text[5] == json_char(c)[5]);
            lemma_hex_digit(c as int / 16);
            lemma_hex_digit(c as int % 16);
            assert((16 * (c as int / 16) + c as int % 16) as char == c);
        } else {
            assert(text[1] != 'u');
            assert(escaped_char(text[1]) == Some(c));
        }
    }
}

proof fn lemma_read_chars(s: Seq<char>, rest: Seq<char>)
    ensures
        read_text(json_chars(s) + (seq!['"'] + rest)) == Some((s, rest)),
    decreases s.len(),
{
    let end = seq!['"'] + rest;
    let text = json_chars(s) + end;
    if s.len() == 0 {
        assert(text =~= end);
        assert(end.drop_first() =~= rest);
        assert(s =~= Seq::empty());
    } else {
        let more = json_chars(s.drop_first()) + end;
        lemma_read_chars(s.drop_first(), rest);
        lemma_read_char(s[0], more);
        assert(text =~= json_char(s[0]) + more);
        assert(seq![s[0]] + s.drop_first() =~= s);
    }
}

/// A string that was written is read back.
pub proof fn lemma_read_string(s: Seq<char>, rest: Seq<char>)
    ensures
        read_value(json_string(s) + rest) == Some((Json::Text(s), rest)),
        starts(json_string(s) + rest, '"'),
        read_text((json_string(s) + rest).drop_first()) == Some((s, rest)),
{
    lemma_read_chars(s, rest);
    assert((json_string(s) + rest).drop_first() =~= json_chars(s) + (seq!['"'] + rest));
}

/// Whether documents of this kind are read back as these values, before anything
/// that ends a number, and are not mistaken for the end of a list.
pub open spec fn reads_as<A>(
    write: spec_fn(A) -> Seq<char>,
    value: spec_fn(A) -> Json,
) -> bool {
    &&& forall|x: A| (#[trigger] write(x)).len() > 0 && write(x)[0] != ']'
    &&& forall|x: A, rest: Seq<char>|
        stops(rest) ==> read_value(#[trigger] (write(x) + rest)) == Some((value(x), rest))
}

proof fn lemma_read_items<A>(
    write: spec_fn(A) -> Seq<char>,
    value: spec_fn(A) -> Json,
    items: Seq<A>,
    rest: Seq<char>,
)
    requires
        reads_as(write, value),
        items.len() > 0,
    ensures
        read_items(
            write(items[0]) + (json_list_rest(items.drop_first().map_values(write)) + rest),
        ) == Some((items.map_values(value), rest)),
    decreases items.len(),
{
    let tail = items.drop_first();
    let after = json_list_rest(tail.map_values(write)) + rest;
    let text = write(items[0]) + after;
    if tail.len() == 0 {
        assert(after =~= seq![']'] + rest);
        assert(stops(after));
        assert(after.drop_first() =~= rest);
        assert(items.map_values(value) =~= seq![value(items[0])]);
    } else {
        lemma_read_items(write, value, tail, rest);
        let next = tail.drop_first();
        assert(tail.map_values(write).drop_first() =~= next.map_values(write));
        let more = write(tail[0]) + (json_list_rest(next.map_values(write)) + rest);
        assert(after =~= seq![','] + more);
        assert(stops(after));
        assert(after.drop_first() =~= more);
        assert(items.map_values(value) =~= seq![value(items[0])] + tail.map_values(value));
    }
}

proof fn lemma_read_list<A>(
    write: spec_fn(A) -> Seq<char>,
    value: spec_fn(A) -> Json,
    items: Seq<A>,
    rest: Seq<char>,
)
    requires
        reads_as(write, value),
    ensures
        read_value(json_list(items.map_values(write)) + rest) == Some(
            (Json::List(items.map_values(value)), rest),
        ),
{
    let written = items.map_values(write);
    let text = json_list(written) + rest;
    if items.len() == 0 {
        assert(text[1] == ']');
        assert(text.skip(2) =~= rest);
        assert(items.map_values(value) =~= Seq::empty());
    } else {
        let tail = items.drop_first();
        lemma_read_items(write, value, items, rest);
        assert(written.drop_first() =~= tail.map_values(write));
        assert(text.drop_first() =~= write(items[0]) + (json_list_rest(tail.map_values(write))
            + rest));
        assert(text[1] == write(items[0])[0]);
    }
}

/// A byte string that was written is read back.
pub proof fn lemma_read_bytes(bytes: Seq<u8>, rest: Seq<char>)
    ensures
        read_value(json_bytes(bytes) + rest) == Some((byte_list(bytes), rest)),
{
    let write = |b: u8| decimal(b as nat);
    let value = |b: u8| Json::Number(b as nat);
    assert forall|x: u8| (#[trigger] write(x)).len() > 0 && write(x)[0] != ']' by {
        lemma_digits_run_on(x as nat, Seq::empty());
        assert((decimal(x as nat) + Seq::<char>::empty())[0] == decimal(x as nat)[0]);
    }
    assert forall|x: u8, rest: Seq<char>| stops(rest) implies read_value(
        #[trigger] (write(x) + rest),
    ) == Some((value(x), rest)) by {
        lemma_read_number(x as nat, rest);
    }
    lemma_read_list(write, value, bytes, rest);
}

/// An optional byte string that was written is read back.
pub proof fn lemma_read_opt_bytes(bytes: Option<Seq<u8>>, rest: Seq<char>)
    ensures
        read_value(json_opt_bytes(bytes) + rest) == Some(
            (
                match bytes {
                    Some(bytes) => byte_list(bytes),
                    None => Json::Null,
                },
                rest,
            ),
        ),
{
    match bytes {
        Some(bytes) => lemma_read_bytes(bytes, rest),
        None => {
            let text = json_opt_bytes(bytes) + rest;
            assert(text.take(4) =~= seq!['n', 'u', 'l', 'l']);
            assert(text.skip(4) =~= rest);
        },
    }
}

/// A list of byte strings that was written is read back.
pub proof fn lemma_read_byte_strings(strings: Seq<Seq<u8>>, rest: Seq<char>)
    ensures
        read_value(json_byte_strings(strings) + rest) == Some(
            (Json::List(strings.map_values(|s: Seq<u8>| byte_list(s))), rest),
        ),
{
    let write = |s: Seq<u8>| json_bytes(s);
    let value = |s: Seq<u8>| byte_list(s);
    assert forall|x: Seq<u8>, rest: Seq<char>| stops(rest) implies read_value(
        #[trigger] (write(x) + rest),
    ) == Some((value(x), rest)) by {
        lemma_read_bytes(x, rest);
    }
    lemma_read_list(write, value, strings, rest);
}

/// The last field of an object is read back.
pub proof fn lemma_read_last_field(name: Seq<char>, written: Seq<char>, value: Json, rest: Seq<char>)
    requires
        read_value(written + (seq!['}'] + rest)) == Some((value, seq!['}'] + rest)),
    ensures
        read_fields(json_field(name, written) + (seq!['}'] + rest)) == Some(
            (seq![(name, value)], rest),
        ),
{
    let end = seq!['}'] + rest;
    let after_name = seq![':'] + (written + end);
    let text = json_field(name, written) + end;
    assert(text =~= json_string(name) + after_name);
    lemma_read_string(name, after_name);
    assert(after_name.drop_first() =~= written + end);
    assert(end.drop_first() =~= rest);
}

/// A field of an object is read back, and so are those behind it.
pub proof fn lemma_read_field(
    name: Seq<char>,
    written: Seq<char>,
    value: Json,
    more: Seq<char>,
    fields: Seq<(Seq<char>, Json)>,
    rest: Seq<char>,
)
    requires
        read_value(written + (seq![','] + more)) == Some((value, seq![','] + more)),
        read_fields(more) == Some((fields, rest)),
    ensures
        read_fields(json_field(name, written) + (seq![','] + more)) == Some(
            (seq![(name, value)] + fields, rest),
        ),
{
    let end = seq![','] + more;
    let after_name = seq![':'] + (written + end);
    let text = json_field(name, written) + end;
    assert(text =~= json_string(name) + after_name);
    lemma_read_string(name, after_name);
    assert(after_name.drop_first() =~= written + end);
    assert(end.drop_first() =~= more);
}

/// Whether the text is read back as this value, before this rest.
pub open spec fn written_as(written: Seq<char>, value: Json, rest: Seq<char>) -> bool {
    read_value(written + rest) == Some((value, rest))
}

proof fn lemma_object_text(a: Seq<char>, b: Seq<char>, c: Seq<char>, d: Seq<char>)
    ensures
        seq!['{'] + a + seq![','] + b + seq![','] + c + seq![','] + d + seq!['}'] == seq!['{'] + (a
            + (seq![','] + (b + (seq![','] + (c + (seq![','] + (d + (seq!['}'] + Seq::<
            char,
        >::empty())))))))),
        (seq!['{'] + a + seq![','] + b + seq![','] + c + seq![','] + d + seq!['}']).drop_first()
            == a + (seq![','] + (b + (seq![','] + (c + (seq![','] + (d + (seq!['}'] + Seq::<
            char,
        >::empty()))))))),
{
    let left = seq!['{'] + a + seq![','] + b + seq![','] + c + seq![','] + d + seq!['}'];
    let end = d + (seq!['}'] + Seq::<char>::empty());
    let from_c = c + (seq![','] + end);
    let from_b = b + (seq![','] + from_c);
    let from_a = a + (seq![','] + from_b);
    assert(d + seq!['}'] =~= end);
    assert(left =~= seq!['{'] + a + seq![','] + b + seq![','] + c + (seq![','] + end));
    assert(left =~= seq!['{'] + a + seq![','] + b + (seq![','] + from_c));
    assert(left =~= seq!['{'] + a + (seq![','] + from_b));
    assert(left =~= seq!['{'] + from_a);
    assert(left.drop_first() =~= from_a);
}

/// An object with four fields, each given by its name, its text and its value, is
/// read back.
pub proof fn lemma_read_four_fields(
    first: (Seq<char>, Seq<char>, Json),
    second: (Seq<char>, Seq<char>, Json),
    third: (Seq<char>, Seq<char>, Json),
    fourth: (Seq<char>, Seq<char>, Json),
)
    requires
        forall|rest: Seq<char>| stops(rest) ==> #[trigger] written_as(first.1, first.2, rest),
        forall|rest: Seq<char>| stops(rest) ==> #[trigger] written_as(second.1, second.2, rest),
        forall|rest: Seq<char>| stops(rest) ==> #[trigger] written_as(third.1, third.2, rest),
        forall|rest: Seq<char>| stops(rest) ==> #[trigger] written_as(fourth.1, fourth.2, rest),
    ensures
        read_whole(
            seq!['{'] + json_field(first.0, first.1) + seq![','] + json_field(second.0, second.1)
                + seq![','] + json_field(third.0, third.1) + seq![','] + json_field(
                fourth.0,
                fourth.1,
            ) + seq!['}'],
        ) == Some(
            Json::Object(
                seq![
                    (first.0, first.2),
                    (second.0, second.2),
                    (third.0, third.2),
                    (fourth.0, fourth.2),
                ],
            ),
        ),
{
    let none = Seq::<char>::empty();
    let a = json_field(first.0, first.1);
    let b = json_field(second.0, second.1);
    let c = json_field(third.0, third.1);
    let d = json_field(fourth.0, fourth.1);
    let from_d = d + (seq!['}'] + none);
    let from_c = c + (seq![','] + from_d);
    let from_b = b + (seq![','] + from_c);
    let from_a = a + (seq![','] + from_b);
    let text = seq!['{'] + a + seq![','] + b + seq![','] + c + seq![','] + d + seq!['}'];
    let fields = seq![
        (first.0, first.2),
        (second.0, second.2),
        (third.0, third.2),
        (fourth.0, fourth.2),
    ];
    assert(read_fields(from_a) == Some((fields, none))) by {
        assert(written_as(fourth.1, fourth.2, seq!['}'] + none));
        lemma_read_last_field(fourth.0, fourth.1, fourth.2, none);
        let last = seq![(fourth.0, fourth.2)];
        assert(written_as(third.1, third.2, seq![','] + from_d));
        lemma_read_field(third.0, third.1, third.2, from_d, last, none);
        let last_two = seq![(third.0, third.2)] + last;
        assert(written_as(second.1, second.2, seq![','] + from_c));
        lemma_read_field(second.0, second.1, second.2, from_c, last_two, none);
        let last_three = seq![(second.0, second.2)] + last_two;
        assert(written_as(first.1, first.2, seq![','] + from_b));
        lemma_read_field(first.0, first.1, first.2, from_b, last_three, none);
        assert(seq![(first.0, first.2)] + last_three =~= fields);
    }
    lemma_object_text(a, b, c, d);
    assert(text.drop_first() == from_a);
    assert(starts(from_a, '"'));
    assert(text.len() > 0 && text[0] == '{');
}

/// An object with a single field is read back.
pub proof fn lemma_read_variant(name: Seq<char>, written: Seq<char>, value: Json)
    requires
        read_value(written + seq!['}']) == Some((value, seq!['}'])),
    ensures
        read_whole(json_variant(name, written)) == Some(Json::Object(seq![(name, value)])),
{
    let end = seq!['}'] + Seq::<char>::empty();
    assert(end =~= seq!['}']);
    lemma_read_last_field(name, written, value, Seq::empty());
    assert(json_variant(name, written).drop_first() =~= json_field(name, written) + end);
}

/// A text that was written out in bytes is read as the text.
pub proof fn lemma_read_document(text: Seq<char>)
    ensures
        read_document(encode_utf8(text)) == read_whole(text),
{
    encode_utf8_valid_utf8(text);
    encode_utf8_decode_utf8(text);
}

} // verus!
