//! The texts that a node puts into its messages: numbers, byte strings and
//! quoted strings, written the way Rust's formatter writes them.

use vstd::prelude::*;

verus! {

/// The lower-case digit that stands for `d` in a base up to sixteen.
pub open spec fn digit(d: int) -> char
    recommends
        0 <= d < 16,
{
    if d < 10 {
        (48 + d) as char
    } else {
        (87 + d) as char
    }
}

/// `n` in decimal, without leading zeros (`{}`).
pub open spec fn decimal(n: nat) -> Seq<char>
    decreases n,
{
    if n < 10 {
        seq![digit(n as int)]
    } else {
        decimal(n / 10) + seq![digit((n % 10) as int)]
    }
}

/// `b` as two hexadecimal digits (`{:02x}`).
pub open spec fn hex_pair(b: u8) -> Seq<char> {
    seq![digit(b as int / 16), digit(b as int % 16)]
}

/// The items with a comma and a space between each two.
pub open spec fn comma_separated(items: Seq<Seq<char>>) -> Seq<char>
    decreases items.len(),
{
    if items.len() == 0 {
        Seq::empty()
    } else if items.len() == 1 {
        items[0]
    } else {
        comma_separated(items.drop_last()) + ", "@ + items.last()
    }
}

/// `bytes` as a list of decimal numbers on one line (`{:?}`).
pub open spec fn bytes_debug(bytes: Seq<u8>) -> Seq<char> {
    "["@ + comma_separated(bytes.map_values(|b: u8| decimal(b as nat))) + "]"@
}

/// `bytes` as a list of hexadecimal pairs on one line (`{:02x?}`).
pub open spec fn bytes_hex_debug(bytes: Seq<u8>) -> Seq<char> {
    "["@ + comma_separated(bytes.map_values(|b: u8| hex_pair(b))) + "]"@
}

/// One indented line for each byte.
pub open spec fn byte_lines(bytes: Seq<u8>) -> Seq<char>
    decreases bytes.len(),
{
    if bytes.len() == 0 {
        Seq::empty()
    } else {
        byte_lines(bytes.drop_last()) + "    "@ + decimal(bytes.last() as nat) + ",\n"@
    }
}

/// `bytes` as a list with a line for each number (`{:#?}`).
pub open spec fn bytes_pretty_debug(bytes: Seq<u8>) -> Seq<char> {
    if bytes.len() == 0 {
        "[]"@
    } else {
        "[\n"@ + byte_lines(bytes) + "]"@
    }
}

/// A truth value as a word (`{}`).
pub open spec fn bool_text(b: bool) -> Seq<char> {
    if b {
        "true"@
    } else {
        "false"@
    }
}

/// What Rust's formatter makes of a string under `{:?}`: the string in double
/// quotes, with what cannot be printed as it stands escaped.
pub uninterp spec fn str_debug(s: Seq<char>) -> Seq<char>;

/// Calls `format!` with `{:?}` on `s`. The result is named by [`str_debug`]:
/// which characters are escaped goes by tables of the standard library.
#[verifier::external_body]
pub(crate) fn quoted(s: &str) -> (res: String)
    ensures
        res@ == str_debug(s@),
{
    format!("{:?}", s)
}

/// The digit as a text of one character.
fn digit_text(d: u8) -> (res: &'static str)
    requires
        d < 16,
    ensures
        res@ == seq![digit(d as int)],
{
    proof {
        reveal_strlit("0");
        reveal_strlit("1");
        reveal_strlit("2");
        reveal_strlit("3");
        reveal_strlit("4");
        reveal_strlit("5");
        reveal_strlit("6");
        reveal_strlit("7");
        reveal_strlit("8");
        reveal_strlit("9");
        reveal_strlit("a");
        reveal_strlit("b");
        reveal_strlit("c");
        reveal_strlit("d");
        reveal_strlit("e");
        reveal_strlit("f");
    }
    match d {
        0 => "0",
        1 => "1",
        2 => "2",
        3 => "3",
        4 => "4",
        5 => "5",
        6 => "6",
        7 => "7",
        8 => "8",
        9 => "9",
        10 => "a",
        11 => "b",
        12 => "c",
        13 => "d",
        14 => "e",
        _ => "f",
    }
}

/// Appends `n` in decimal.
pub fn push_decimal(out: &mut String, n: usize)
    ensures
        final(out)@ == old(out)@ + decimal(n as nat),
    decreases n,
{
    if n < 10 {
        out.append(digit_text(n as u8));
    } else {
        push_decimal(out, n / 10);
        out.append(digit_text((n % 10) as u8));
    }
}

/// Appends `b` as two hexadecimal digits.
pub fn push_hex_pair(out: &mut String, b: u8)
    ensures
        final(out)@ == old(out)@ + hex_pair(b),
{
    out.append(digit_text(b / 16));
    out.append(digit_text(b % 16));
}

/// `bytes` as a list of decimal numbers on one line.
pub fn debug_bytes(bytes: &[u8]) -> (res: String)
    ensures
        res@ == bytes_debug(bytes@),
{
    let ghost items = bytes@.map_values(|b: u8| decimal(b as nat));
    let mut out = String::from_str("[");
    let mut i: usize = 0;
    assert(items.take(0) =~= Seq::<Seq<char>>::empty());
    while i < bytes.len()
        invariant
            i <= bytes@.len(),
            items == bytes@.map_values(|b: u8| decimal(b as nat)),
            out@ == "["@ + comma_separated(items.take(i as int)),
        decreases bytes@.len() - i,
    {
        if i > 0 {
            out.append(", ");
        }
        push_decimal(&mut out, bytes[i] as usize);
        proof {
            lemma_comma_separated_step(items, i as int);
        }
        i += 1;
    }
    assert(items.take(i as int) =~= items);
    out.append("]");
    out
}

/// `bytes` as a list of hexadecimal pairs on one line.
pub fn hex_debug_bytes(bytes: &[u8]) -> (res: String)
    ensures
        res@ == bytes_hex_debug(bytes@),
{
    let ghost items = bytes@.map_values(|b: u8| hex_pair(b));
    let mut out = String::from_str("[");
    let mut i: usize = 0;
    assert(items.take(0) =~= Seq::<Seq<char>>::empty());
    while i < bytes.len()
        invariant
            i <= bytes@.len(),
            items == bytes@.map_values(|b: u8| hex_pair(b)),
            out@ == "["@ + comma_separated(items.take(i as int)),
        decreases bytes@.len() - i,
    {
        if i > 0 {
            out.append(", ");
        }
        push_hex_pair(&mut out, bytes[i]);
        proof {
            lemma_comma_separated_step(items, i as int);
        }
        i += 1;
    }
    assert(items.take(i as int) =~= items);
    out.append("]");
    out
}

/// `bytes` as a list with a line for each number.
pub fn pretty_debug_bytes(bytes: &[u8]) -> (res: String)
    ensures
        res@ == bytes_pretty_debug(bytes@),
{
    if bytes.len() == 0 {
        return String::from_str("[]");
    }
    let mut out = String::from_str("[\n");
    let mut i: usize = 0;
    while i < bytes.len()
        invariant
            i <= bytes@.len(),
            out@ == "[\n"@ + byte_lines(bytes@.take(i as int)),
        decreases bytes@.len() - i,
    {
        out.append("    ");
        push_decimal(&mut out, bytes[i] as usize);
        out.append(",\n");
        assert(bytes@.take(i + 1).drop_last() =~= bytes@.take(i as int));
        i += 1;
    }
    assert(bytes@.take(i as int) =~= bytes@);
    out.append("]");
    out
}

/// A truth value as a word.
pub fn show_bool(b: bool) -> (res: String)
    ensures
        res@ == bool_text(b),
        b ==> res@ == "true"@,
        !b ==> res@ == "false"@,
{
    if b {
        String::from_str("true")
    } else {
        String::from_str("false")
    }
}

/// How one more item extends the list.
proof fn lemma_comma_separated_step(items: Seq<Seq<char>>, i: int)
    requires
        0 <= i < items.len(),
    ensures
        comma_separated(items.take(i + 1)) == comma_separated(items.take(i)) + (if i > 0 {
            ", "@
        } else {
            Seq::empty()
        }) + items[i],
{
    assert(items.take(i + 1).drop_last() =~= items.take(i));
    if i == 0 {
        assert(items.take(1) =~= seq![items[0]]);
    }
}

/// The value of a digit in a base up to sixteen, if the character is one.
pub open spec fn digit_value(c: char, base: nat) -> Option<nat> {
    let code = c as int;
    if '0' as int <= code <= '9' as int && code - '0' as int <= base - 1 {
        Some((code - '0' as int) as nat)
    } else if 'a' as int <= code <= 'f' as int && code - 'a' as int + 10 <= base - 1 {
        Some((code - 'a' as int + 10) as nat)
    } else {
        None
    }
}

/// Whether the text begins with a digit.
pub open spec fn begins_numeral(text: Seq<char>, base: nat) -> bool {
    text.len() > 0 && digit_value(text[0], base) is Some
}

/// The value of the numeral at the beginning of the text, behind digits of this
/// value, and what follows it.
pub open spec fn numeral(text: Seq<char>, base: nat, value: nat) -> (nat, Seq<char>)
    decreases text.len(),
{
    if begins_numeral(text, base) {
        numeral(text.drop_first(), base, base * value + digit_value(text[0], base)->0)
    } else {
        (value, text)
    }
}

/// The numbers that stand in a text, in order.
pub open spec fn numbers_in(text: Seq<char>, base: nat) -> Seq<nat>
    decreases text.len(),
{
    if text.len() == 0 {
        Seq::empty()
    } else if begins_numeral(text, base) {
        let (value, rest) = numeral(text, base, 0);
        if rest.len() < text.len() {
            seq![value] + numbers_in(rest, base)
        } else {
            Seq::empty()
        }
    } else {
        numbers_in(text.drop_first(), base)
    }
}

proof fn lemma_numbers_skip(text: Seq<char>, base: nat)
    requires
        text.len() > 0,
        !begins_numeral(text, base),
    ensures
        numbers_in(text, base) == numbers_in(text.drop_first(), base),
        text.len() == 1 ==> numbers_in(text, base) == Seq::<nat>::empty(),
{
    if text.len() == 1 {
        assert(text.drop_first() =~= Seq::empty());
        assert(numbers_in(text.drop_first(), base) =~= Seq::empty());
    }
}

proof fn lemma_numeral_splits(x: Seq<char>, y: Seq<char>, base: nat, value: nat)
    requires
        !begins_numeral(y, base),
    ensures
        numeral(x + y, base, value) == (numeral(x, base, value).0, numeral(x, base, value).1 + y),
        numeral(x, base, value).1.len() <= x.len(),
        begins_numeral(x, base) ==> numeral(x, base, value).1.len() < x.len(),
    decreases x.len(),
{
    if x.len() == 0 {
        assert(x + y =~= y);
    } else if begins_numeral(x, base) {
        assert((x + y).drop_first() =~= x.drop_first() + y);
        lemma_numeral_splits(
            x.drop_first(),
            y,
            base,
            base * value + digit_value(x[0], base)->0,
        );
    }
}

proof fn lemma_numbers_split(x: Seq<char>, y: Seq<char>, base: nat)
    requires
        !begins_numeral(y, base),
    ensures
        numbers_in(x + y, base) == numbers_in(x, base) + numbers_in(y, base),
    decreases x.len(),
{
    if x.len() == 0 {
        assert(x + y =~= y);
        assert(numbers_in(x, base) + numbers_in(y, base) =~= numbers_in(y, base));
    } else if begins_numeral(x, base) {
        lemma_numeral_splits(x, y, base, 0);
        let (value, rest) = numeral(x, base, 0);
        lemma_numbers_split(rest, y, base);
        assert(numbers_in(x + y, base) =~= numbers_in(x, base) + numbers_in(y, base));
    } else {
        assert((x + y).drop_first() =~= x.drop_first() + y);
        lemma_numbers_split(x.drop_first(), y, base);
    }
}

proof fn lemma_digit_value(d: int, base: nat)
    requires
        0 <= d < base <= 16,
    ensures
        digit_value(digit(d), base) == Some(d as nat),
{
}

proof fn lemma_decimal_runs_on(n: nat, rest: Seq<char>)
    ensures
        numeral(decimal(n) + rest, 10, 0) == numeral(rest, 10, n),
        begins_numeral(decimal(n) + rest, 10),
    decreases n,
{
    let d = seq![digit((n % 10) as int)];
    lemma_digit_value((n % 10) as int, 10);
    assert((d + rest).drop_first() =~= rest);
    if n < 10 {
        assert(decimal(n) =~= d);
    } else {
        lemma_decimal_runs_on(n / 10, d + rest);
        assert(decimal(n) + rest =~= decimal(n / 10) + (d + rest));
        assert(10 * (n / 10) + n % 10 == n);
    }
}

/// A number that was written in decimal has its value.
pub proof fn law_decimal_has_the_value(n: nat)
    ensures
        numbers_in(decimal(n), 10) == seq![n],
        n < 10 <==> decimal(n).len() == 1,
        n > 0 ==> decimal(n)[0] != '0',
        forall|i: int| 0 <= i < decimal(n).len() ==> digit_value(#[trigger] decimal(n)[i], 10) is Some,
    decreases n,
{
    if n >= 10 {
        law_decimal_has_the_value(n / 10);
    }
    lemma_digit_value((n % 10) as int, 10);
    let none = Seq::<char>::empty();
    lemma_decimal_runs_on(n, none);
    assert(decimal(n) + none =~= decimal(n));
    assert(numbers_in(none, 10) =~= Seq::empty());
    lemma_numeral_splits(decimal(n), none, 10, 0);
    assert(seq![n] + numbers_in(none, 10) =~= seq![n]);
    if n >= 10 {
        lemma_decimal_runs_on(n / 10, none);
        assert(decimal(n / 10) + none =~= decimal(n / 10));
    }
}

/// A byte that was written as a hexadecimal pair has its value.
pub proof fn law_hex_pair_has_the_value(b: u8)
    ensures
        hex_pair(b).len() == 2,
        numbers_in(hex_pair(b), 16) == seq![b as nat],
{
    let none = Seq::<char>::empty();
    let pair = hex_pair(b);
    lemma_digit_value(b as int / 16, 16);
    lemma_digit_value(b as int % 16, 16);
    assert(pair.drop_first() =~= seq![pair[1]]);
    assert(pair.drop_first().drop_first() =~= none);
    reveal_with_fuel(numeral, 4);
    let high = (b as int / 16) as nat;
    let low = (b as int % 16) as nat;
    assert(16 * high + low == b as nat);
    assert(numeral(pair, 16, 0) == (b as nat, none));
    assert(numbers_in(none, 16) =~= Seq::empty());
    assert(seq![b as nat] + numbers_in(none, 16) =~= seq![b as nat]);
}

proof fn lemma_separated_numbers(items: Seq<Seq<char>>, values: Seq<nat>, base: nat)
    requires
        items.len() == values.len(),
        2 <= base <= 16,
        forall|i: int|
            0 <= i < items.len() ==> #[trigger] numbers_in(items[i], base) == seq![values[i]],
    ensures
        numbers_in(comma_separated(items), base) == values,
    decreases items.len(),
{
    if items.len() == 0 {
        assert(values =~= Seq::empty());
    } else if items.len() == 1 {
        assert(numbers_in(items[0], base) == seq![values[0]]);
        assert(values =~= seq![values[0]]);
    } else {
        let front = items.drop_last();
        assert forall|i: int| 0 <= i < front.len() implies #[trigger] numbers_in(front[i], base)
            == seq![values.drop_last()[i]] by {
            assert(numbers_in(items[i], base) == seq![values[i]]);
        }
        lemma_separated_numbers(front, values.drop_last(), base);
        reveal_strlit(", ");
        let last = ", "@ + items.last();
        assert(comma_separated(items) =~= comma_separated(front) + last);
        assert(last[0] == ',');
        lemma_numbers_split(comma_separated(front), last, base);
        assert(last.drop_first()[0] == ' ');
        assert(last.drop_first().drop_first() =~= items.last());
        lemma_numbers_skip(last, base);
        lemma_numbers_skip(last.drop_first(), base);
        assert(numbers_in(items[items.len() - 1], base) == seq![values.last()]);
        assert(values =~= values.drop_last() + seq![values.last()]);
    }
}

proof fn lemma_bracketed_numbers(inner: Seq<char>, base: nat)
    requires
        2 <= base <= 16,
    ensures
        numbers_in("["@ + inner + "]"@, base) == numbers_in(inner, base),
{
    reveal_strlit("[");
    reveal_strlit("]");
    let whole = "["@ + inner + "]"@;
    assert(whole.drop_first() =~= inner + "]"@);
    lemma_numbers_split(inner, "]"@, base);
    lemma_numbers_skip("]"@, base);
    lemma_numbers_skip(whole, base);
    assert(numbers_in(inner, base) + numbers_in("]"@, base) =~= numbers_in(inner, base));
}

/// The numbers that stand in a byte string that is shown on one line are its bytes,
/// in order.
pub proof fn law_shown_bytes_are_the_bytes(bytes: Seq<u8>)
    ensures
        numbers_in(bytes_debug(bytes), 10) == bytes.map_values(|b: u8| b as nat),
{
    let items = bytes.map_values(|b: u8| decimal(b as nat));
    let values = bytes.map_values(|b: u8| b as nat);
    assert forall|i: int| 0 <= i < items.len() implies #[trigger] numbers_in(items[i], 10) == seq![
        values[i],
    ] by {
        law_decimal_has_the_value(bytes[i] as nat);
    }
    lemma_separated_numbers(items, values, 10);
    lemma_bracketed_numbers(comma_separated(items), 10);
}

/// The numbers that stand in a byte string that is shown in hexadecimal are its
/// bytes, in order.
pub proof fn law_hex_shown_bytes_are_the_bytes(bytes: Seq<u8>)
    ensures
        numbers_in(bytes_hex_debug(bytes), 16) == bytes.map_values(|b: u8| b as nat),
{
    let items = bytes.map_values(|b: u8| hex_pair(b));
    let values = bytes.map_values(|b: u8| b as nat);
    assert forall|i: int| 0 <= i < items.len() implies #[trigger] numbers_in(items[i], 16) == seq![
        values[i],
    ] by {
        law_hex_pair_has_the_value(bytes[i]);
    }
    lemma_separated_numbers(items, values, 16);
    lemma_bracketed_numbers(comma_separated(items), 16);
}

/// A byte string is shown as its numbers in brackets: one more byte puts a comma, a
/// space and its number before the closing bracket.
pub proof fn law_shown_bytes_grow(bytes: Seq<u8>, b: u8)
    ensures
        bytes_debug(Seq::empty()) == "[]"@,
        bytes_hex_debug(Seq::empty()) == "[]"@,
        bytes_debug(bytes.push(b)) == bytes_debug(bytes).drop_last() + (if bytes.len() > 0 {
            ", "@
        } else {
            Seq::empty()
        }) + decimal(b as nat) + "]"@,
        bytes_hex_debug(bytes.push(b)) == bytes_hex_debug(bytes).drop_last() + (if bytes.len()
            > 0 {
            ", "@
        } else {
            Seq::empty()
        }) + hex_pair(b) + "]"@,
{
    reveal_strlit("[]");
    reveal_strlit("[");
    reveal_strlit("]");
    let none = Seq::<u8>::empty();
    assert(bytes_debug(none) =~= "[]"@);
    assert(bytes_hex_debug(none) =~= "[]"@);
    let more = bytes.push(b);
    let n = bytes.len() as int;
    let items = more.map_values(|b: u8| decimal(b as nat));
    lemma_comma_separated_step(items, n);
    assert(items.take(n + 1) =~= items);
    assert(items.take(n) =~= bytes.map_values(|b: u8| decimal(b as nat)));
    assert(bytes_debug(bytes).drop_last() =~= "["@ + comma_separated(items.take(n)));
    assert(bytes_debug(more) =~= bytes_debug(bytes).drop_last() + (if n > 0 {
        ", "@
    } else {
        Seq::empty()
    }) + decimal(b as nat) + "]"@);
    let pairs = more.map_values(|b: u8| hex_pair(b));
    lemma_comma_separated_step(pairs, n);
    assert(pairs.take(n + 1) =~= pairs);
    assert(pairs.take(n) =~= bytes.map_values(|b: u8| hex_pair(b)));
    assert(bytes_hex_debug(bytes).drop_last() =~= "["@ + comma_separated(pairs.take(n)));
    assert(bytes_hex_debug(more) =~= bytes_hex_debug(bytes).drop_last() + (if n > 0 {
        ", "@
    } else {
        Seq::empty()
    }) + hex_pair(b) + "]"@);
}

/// A byte string that is shown with a line for each number grows by an indented
/// line with the number and a comma.
pub proof fn law_shown_lines_grow(bytes: Seq<u8>, b: u8)
    ensures
        bytes_pretty_debug(Seq::empty()) == "[]"@,
        bytes_pretty_debug(bytes.push(b)) == (if bytes.len() > 0 {
            bytes_pretty_debug(bytes).drop_last()
        } else {
            "[\n"@
        }) + "    "@ + decimal(b as nat) + ",\n"@ + "]"@,
{
    reveal_strlit("]");
    assert(bytes.push(b).drop_last() =~= bytes);
    if bytes.len() > 0 {
        assert(bytes_pretty_debug(bytes).drop_last() =~= "[\n"@ + byte_lines(bytes));
    } else {
        assert(byte_lines(bytes) =~= Seq::empty());
    }
    assert(bytes_pretty_debug(bytes.push(b)) =~= "[\n"@ + byte_lines(bytes) + "    "@ + decimal(
        b as nat,
    ) + ",\n"@ + "]"@);
}

proof fn lemma_lines_are_the_bytes(bytes: Seq<u8>)
    ensures
        numbers_in(byte_lines(bytes), 10) == bytes.map_values(|b: u8| b as nat),
    decreases bytes.len(),
{
    let values = bytes.map_values(|b: u8| b as nat);
    if bytes.len() == 0 {
        assert(values =~= Seq::empty());
    } else {
        let front = byte_lines(bytes.drop_last());
        let number = decimal(bytes.last() as nat);
        lemma_lines_are_the_bytes(bytes.drop_last());
        law_decimal_has_the_value(bytes.last() as nat);
        reveal_strlit("    ");
        reveal_strlit(",\n");
        let end = ",\n"@;
        lemma_numbers_skip(end, 10);
        lemma_numbers_skip(end.drop_first(), 10);
        let line = number + end;
        lemma_numbers_split(number, end, 10);
        assert(numbers_in(line, 10) =~= seq![bytes.last() as nat]);
        let one = "    "@ + line;
        assert(one.drop_first().drop_first().drop_first().drop_first() =~= line);
        assert(one[0] == ' ' && one[1] == ' ' && one[2] == ' ' && one[3] == ' ');
        lemma_numbers_skip(one, 10);
        lemma_numbers_skip(one.drop_first(), 10);
        lemma_numbers_skip(one.drop_first().drop_first(), 10);
        lemma_numbers_skip(one.drop_first().drop_first().drop_first(), 10);
        lemma_numbers_split(front, one, 10);
        assert(byte_lines(bytes) =~= front + one);
        assert(values =~= bytes.drop_last().map_values(|b: u8| b as nat) + seq![
            bytes.last() as nat,
        ]);
    }
}

/// The numbers that stand in a byte string that is shown with a line for each are
/// its bytes, in order.
pub proof fn law_bytes_on_lines_are_the_bytes(bytes: Seq<u8>)
    ensures
        numbers_in(bytes_pretty_debug(bytes), 10) == bytes.map_values(|b: u8| b as nat),
{
    let values = bytes.map_values(|b: u8| b as nat);
    if bytes.len() == 0 {
        reveal_strlit("[]");
        lemma_numbers_skip("[]"@, 10);
        lemma_numbers_skip("[]"@.drop_first(), 10);
        assert(values =~= Seq::empty());
    } else {
        lemma_lines_are_the_bytes(bytes);
        reveal_strlit("[\n");
        reveal_strlit("]");
        let lines = byte_lines(bytes);
        lemma_numbers_split(lines, "]"@, 10);
        lemma_numbers_skip("]"@, 10);
        let whole = bytes_pretty_debug(bytes);
        assert(whole.drop_first().drop_first() =~= lines + "]"@);
        lemma_numbers_skip(whole, 10);
        lemma_numbers_skip(whole.drop_first(), 10);
        assert(numbers_in(lines, 10) + numbers_in("]"@, 10) =~= numbers_in(lines, 10));
    }
}

} // verus!
