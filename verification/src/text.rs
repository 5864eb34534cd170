//! Cutting text into fields: splitting at a separator, lines, and decimal numbers.
//!
//! The specifications speak of sequences of characters. The functions work on the UTF-8 bytes of
//! a `&str`; the separators are ASCII, so that a separator byte always is a whole character.

use vstd::prelude::*;
use vstd::string::StringSliceAdditionalSpecFns;
use vstd::utf8::{
    encode_scalar, encode_utf8, encode_utf8_decode_utf8, encode_utf8_valid_utf8,
    has_width_1_encoding, is_ascii_chars, is_char_boundary,
    is_char_boundary_iff_not_is_continuation_byte, leading_byte_width_1, length_of_first_scalar,
};

verus! {

/// What stands before and after the first `sep` of `s`; nothing if `s` holds no `sep`.
pub open spec fn split_once<T>(s: Seq<T>, sep: T) -> Option<(Seq<T>, Seq<T>)> {
    match s.index_of_first(sep) {
        Some(i) => Some((s.take(i), s.skip(i + 1))),
        None => None,
    }
}

/// The pieces of `s` between the occurrences of `sep`, of which there is always at least one.
pub open spec fn split<T>(s: Seq<T>, sep: T) -> Seq<Seq<T>>
    decreases s.len(),
{
    match split_once(s, sep) {
        Some((head, tail)) => {
            proof {
                s.index_of_first_ensures(sep);
            }
            seq![head] + split(tail, sep)
        },
        None => seq![s],
    }
}

/// `pieces` one after the other, with `sep` between them.
pub open spec fn join<T>(pieces: Seq<Seq<T>>, sep: T) -> Seq<T>
    decreases pieces.len(),
{
    if pieces.len() == 0 {
        seq![]
    } else if pieces.len() == 1 {
        pieces[0]
    } else {
        pieces[0].push(sep) + join(pieces.drop_first(), sep)
    }
}

/// `s` without the carriage return at its end, if there is one.
pub open spec fn strip_carriage_return(s: Seq<char>) -> Seq<char> {
    if s.len() > 0 && s.last() == '\r' {
        s.drop_last()
    } else {
        s
    }
}

/// The lines of `s`: every line ends in `"\n"` or `"\r\n"`, which is not part of it, and the last
/// one may also end where the text ends.
pub open spec fn lines(s: Seq<char>) -> Seq<Seq<char>> {
    let pieces = split(s, '\n');
    let ended = pieces.drop_last().map_values(|p: Seq<char>| strip_carriage_return(p));
    if pieces.last().len() == 0 {
        ended
    } else {
        ended.push(pieces.last())
    }
}

/// The texts of a sequence of string slices.
pub open spec fn texts(v: Seq<&str>) -> Seq<Seq<char>> {
    v.map_values(|p: &str| p@)
}

/// The UTF-8 bytes of two texts one after the other.
pub(crate) proof fn lemma_encode_concat(a: Seq<char>, b: Seq<char>)
    ensures
        encode_utf8(a + b) == encode_utf8(a) + encode_utf8(b),
    decreases a.len(),
{
    if a.len() == 0 {
        assert(a + b =~= b);
    } else {
        lemma_encode_concat(a.drop_first(), b);
        assert((a + b).drop_first() =~= a.drop_first() + b);
    }
}

/// An ASCII character is one byte of UTF-8.
pub(crate) proof fn lemma_encode_ascii(c: char)
    requires
        c as u32 <= 0x7f,
    ensures
        encode_utf8(seq![c]) == seq![c as u8],
{
    let v = c as u32;
    assert(v as u8 == leading_byte_width_1(v)) by (bit_vector)
        requires
            has_width_1_encoding(v),
    ;
    assert(seq![c].drop_first() =~= Seq::<char>::empty());
    assert(encode_utf8(seq![c]) =~= encode_scalar(v) + encode_utf8(Seq::<char>::empty()));
    assert(encode_utf8(seq![c]) =~= seq![c as u8]);
}

/// Texts with the same UTF-8 bytes are the same.
proof fn lemma_encode_injective(a: Seq<char>, b: Seq<char>)
    requires
        encode_utf8(a) == encode_utf8(b),
    ensures
        a == b,
{
    encode_utf8_decode_utf8(a);
    encode_utf8_decode_utf8(b);
}

/// An ASCII character of a text stands among its bytes.
proof fn lemma_ascii_in_bytes(s: Seq<char>, c: char)
    requires
        c as u32 <= 0x7f,
        s.contains(c),
    ensures
        encode_utf8(s).contains(c as u8),
{
    let k = choose|k: int| 0 <= k < s.len() && s[k] == c;
    let before = s.take(k);
    let after = s.skip(k + 1);
    lemma_encode_ascii(c);
    lemma_encode_concat(before, seq![c]);
    lemma_encode_concat(before + seq![c], after);
    assert(s =~= before + seq![c] + after);
    assert(encode_utf8(s)[encode_utf8(before).len() as int] == c as u8);
}

/// A text cut at an ASCII byte: the bytes before it and behind it are the bytes of the text
/// before and behind the character that the byte is.
proof fn lemma_cut_at_ascii(s: Seq<char>, head: Seq<char>, c: char, tail: Seq<char>)
    requires
        c as u32 <= 0x7f,
        encode_utf8(s) == encode_utf8(head) + seq![c as u8] + encode_utf8(tail),
    ensures
        s == head + seq![c] + tail,
{
    lemma_encode_ascii(c);
    lemma_encode_concat(head, seq![c]);
    lemma_encode_concat(head + seq![c], tail);
    lemma_encode_injective(s, head + seq![c] + tail);
}

/// Where `s` is `head`, `sep` and `tail`, with no `sep` in `head`, that is how it splits.
pub(crate) proof fn lemma_split_once_parts<T>(s: Seq<T>, head: Seq<T>, sep: T, tail: Seq<T>)
    requires
        s == head + seq![sep] + tail,
        !head.contains(sep),
    ensures
        split_once(s, sep) == Some((head, tail)),
{
    s.index_of_first_ensures(sep);
    assert(s[head.len() as int] == sep);
    let i = s.index_of_first(sep)->0;
    if i < head.len() {
        assert(head[i] == sep);
    }
    assert(s.take(i) =~= head);
    assert(s.skip(i + 1) =~= tail);
}

/// Whether two string slices hold the same text.
pub fn same_text(a: &str, b: &str) -> (res: bool)
    ensures
        res == (a@ == b@),
{
    let x: &[u8] = a.as_bytes();
    let y: &[u8] = b.as_bytes();
    if x.len() != y.len() {
        return false;
    }
    let mut i: usize = 0;
    while i < x.len()
        invariant
            i <= x@.len(),
            x@.len() == y@.len(),
            x@ == a.spec_bytes(),
            y@ == b.spec_bytes(),
            x@.take(i as int) == y@.take(i as int),
        decreases x@.len() - i,
    {
        if x[i] != y[i] {
            return false;
        }
        assert(x@.take(i + 1) =~= x@.take(i as int).push(x@[i as int]));
        assert(y@.take(i + 1) =~= y@.take(i as int).push(y@[i as int]));
        i = i + 1;
    }
    proof {
        assert(x@.take(x@.len() as int) =~= x@);
        assert(y@.take(y@.len() as int) =~= y@);
        lemma_encode_injective(a@, b@);
    }
    true
}

/// Cuts `s` at the byte `i`, which is the ASCII character `c`, and leaves that character out.
fn cut_at<'a>(s: &'a str, i: usize, c: char) -> (res: (&'a str, &'a str))
    requires
        c as u32 <= 0x7f,
        i < s.spec_bytes().len(),
        s.spec_bytes()[i as int] == c as u8,
    ensures
        s@ == res.0@ + seq![c] + res.1@,
        res.0.spec_bytes() == s.spec_bytes().take(i as int),
{
    let ghost bytes = s.spec_bytes();
    proof {
        encode_utf8_valid_utf8(s@);
        is_char_boundary_iff_not_is_continuation_byte(bytes, i as int);
    }
    let (head, rest) = s.split_at(i);
    proof {
        encode_utf8_valid_utf8(rest@);
        reveal_with_fuel(is_char_boundary, 2);
        assert(length_of_first_scalar(rest.spec_bytes()) == 1);
    }
    let (_sep, tail) = rest.split_at(1);
    proof {
        assert(bytes =~= head.spec_bytes() + seq![c as u8] + tail.spec_bytes());
        lemma_cut_at_ascii(s@, head@, c, tail@);
    }
    (head, tail)
}

/// What stands before and after the first `sep` in `s`, as `str::split_once` gives it.
pub fn split_once_at<'a>(s: &'a str, sep: char) -> (res: Option<(&'a str, &'a str)>)
    requires
        sep as u32 <= 0x7f,
    ensures
        match res {
            Some((head, tail)) => split_once(s@, sep) == Some((head@, tail@)),
            None => split_once(s@, sep) is None,
        },
{
    let bytes: &[u8] = s.as_bytes();
    let b: u8 = sep as u8;
    let mut i: usize = 0;
    while i < bytes.len()
        invariant
            i <= bytes@.len(),
            bytes@ == s.spec_bytes(),
            b == sep as u8,
            sep as u32 <= 0x7f,
            forall|k: int| 0 <= k < i ==> bytes@[k] != b,
        decreases bytes@.len() - i,
    {
        if bytes[i] == b {
            let (head, tail) = cut_at(s, i, sep);
            proof {
                if head@.contains(sep) {
                    lemma_ascii_in_bytes(head@, sep);
                }
                lemma_split_once_parts(s@, head@, sep, tail@);
            }
            return Some((head, tail));
        }
        i = i + 1;
    }
    proof {
        if s@.contains(sep) {
            lemma_ascii_in_bytes(s@, sep);
        }
        s@.index_of_first_ensures(sep);
    }
    None
}

/// All the pieces of `s` between the occurrences of `sep`, as `str::split` gives them.
pub fn split_at_each<'a>(s: &'a str, sep: char) -> (res: Vec<&'a str>)
    requires
        sep as u32 <= 0x7f,
    ensures
        texts(res@) == split(s@, sep),
{
    let mut pieces: Vec<&'a str> = Vec::new();
    let mut rest: &'a str = s;
    assert(texts(pieces@) + split(rest@, sep) =~= split(s@, sep));
    loop
        invariant
            sep as u32 <= 0x7f,
            texts(pieces@) + split(rest@, sep) == split(s@, sep),
        decreases rest@.len(),
    {
        match split_once_at(rest, sep) {
            Some((head, tail)) => {
                proof {
                    rest@.index_of_first_ensures(sep);
                    assert(texts(pieces@.push(head)) =~= texts(pieces@) + seq![head@]);
                    assert(texts(pieces@) + seq![head@] + split(tail@, sep) =~= texts(pieces@)
                        + split(rest@, sep));
                }
                pieces.push(head);
                rest = tail;
            },
            None => {
                proof {
                    assert(texts(pieces@.push(rest)) =~= texts(pieces@) + seq![rest@]);
                }
                pieces.push(rest);
                return pieces;
            },
        }
    }
}

/// `s` without the carriage return at its end, if there is one.
fn without_carriage_return<'a>(s: &'a str) -> (res: &'a str)
    ensures
        res@ == strip_carriage_return(s@),
{
    let bytes: &[u8] = s.as_bytes();
    let n: usize = bytes.len();
    if n > 0 && bytes[n - 1] == 13 {
        let (head, tail) = cut_at(s, n - 1, '\r');
        proof {
            assert(tail@.len() == 0) by {
                lemma_encode_ascii('\r');
                lemma_encode_concat(head@, seq!['\r']);
                lemma_encode_concat(head@ + seq!['\r'], tail@);
                if tail@.len() > 0 {
                    assert(encode_utf8(tail@) =~= encode_scalar(tail@[0] as u32) + encode_utf8(
                        tail@.drop_first(),
                    ));
                }
            }
            assert(s@.drop_last() =~= head@);
        }
        return head;
    }
    proof {
        if s@.len() > 0 && s@.last() == '\r' {
            lemma_encode_ascii('\r');
            lemma_encode_concat(s@.drop_last(), seq!['\r']);
            assert(s@ =~= s@.drop_last() + seq!['\r']);
            assert(bytes@.last() == 13);
        }
    }
    s
}

/// The lines of `s`, as `str::lines` gives them.
pub fn split_lines<'a>(s: &'a str) -> (res: Vec<&'a str>)
    ensures
        texts(res@) == lines(s@),
{
    let pieces: Vec<&'a str> = split_at_each(s, '\n');
    let ghost whole = split(s@, '\n');
    assert(texts(pieces@) == whole);
    assert(whole.len() > 0) by {
        reveal_with_fuel(split, 2);
    }
    let ghost strip = |p: Seq<char>| strip_carriage_return(p);
    let mut out: Vec<&'a str> = Vec::new();
    let n: usize = pieces.len();
    assert(n == whole.len());
    let mut i: usize = 0;
    assert(texts(out@) =~= whole.take(0).map_values(strip));
    while i < n - 1
        invariant
            i <= n - 1,
            n == pieces@.len(),
            n == whole.len(),
            texts(pieces@) == whole,
            strip == (|p: Seq<char>| strip_carriage_return(p)),
            texts(out@) == whole.take(i as int).map_values(strip),
        decreases n - i,
    {
        let line: &'a str = without_carriage_return(pieces[i]);
        proof {
            assert(texts(pieces@)[i as int] == pieces@[i as int]@);
            assert(texts(out@.push(line)) =~= texts(out@).push(line@));
            assert(whole.take(i + 1) =~= whole.take(i as int).push(whole[i as int]));
            assert(whole.take(i + 1).map_values(strip) =~= whole.take(i as int).map_values(
                strip,
            ).push(strip(whole[i as int])));
        }
        out.push(line);
        i = i + 1;
    }
    let last: &'a str = pieces[n - 1];
    proof {
        assert(texts(pieces@)[n - 1] == pieces@[n - 1]@);
        assert(whole.take(n - 1) =~= whole.drop_last());
        assert(texts(out@.push(last)) =~= texts(out@).push(last@));
    }
    if !last.is_empty() {
        out.push(last);
    }
    out
}

/// Whether `c` is an ASCII decimal digit.
pub open spec fn is_digit(c: char) -> bool {
    '0' <= c <= '9'
}

/// The number that a sequence of decimal digits stands for.
pub open spec fn decimal_value(digits: Seq<char>) -> nat
    decreases digits.len(),
{
    if digits.len() == 0 {
        0
    } else {
        10 * decimal_value(digits.drop_last()) + (digits.last() as nat - '0' as nat) as nat
    }
}

/// `s` without the plus sign at its start, if there is one.
pub open spec fn unsigned_part(s: Seq<char>) -> Seq<char> {
    if s.len() > 0 && s[0] == '+' {
        s.drop_first()
    } else {
        s
    }
}

/// The `u64` that `s` is the decimal notation of: an optional plus sign, then at least one digit
/// and nothing else, of a value that fits.
pub open spec fn u64_value(s: Seq<char>) -> Option<u64> {
    let digits = unsigned_part(s);
    if digits.len() > 0 && (forall|i: int| 0 <= i < digits.len() ==> is_digit(#[trigger] digits[i]))
        && decimal_value(digits) <= u64::MAX {
        Some(decimal_value(digits) as u64)
    } else {
        None
    }
}

/// More digits do not make a number smaller.
proof fn lemma_decimal_value_grows(digits: Seq<char>, n: int)
    requires
        0 <= n <= digits.len(),
        forall|i: int| 0 <= i < digits.len() ==> is_digit(#[trigger] digits[i]),
    ensures
        decimal_value(digits.take(n)) <= decimal_value(digits),
    decreases digits.len(),
{
    if n == digits.len() {
        assert(digits.take(n) =~= digits);
    } else {
        assert(digits.drop_last().take(n) =~= digits.take(n));
        lemma_decimal_value_grows(digits.drop_last(), n);
    }
}

/// Reads `s` as a decimal `u64`, as `str::parse::<u64>` does; what that reports as an error is
/// `None` here.
pub fn parse_u64(s: &str) -> (res: Option<u64>)
    ensures
        res == u64_value(s@),
{
    if !s.is_ascii() {
        proof {
            let k = choose|k: int| 0 <= k < s@.len() && !('\0' <= #[trigger] s@[k] <= '\u{7f}');
            if unsigned_part(s@) == s@ {
                assert(!is_digit(unsigned_part(s@)[k]));
            } else {
                assert(!is_digit(unsigned_part(s@)[k - 1]));
            }
        }
        return None;
    }
    let bytes: &[u8] = s.as_bytes();
    proof {
        vstd::string::is_ascii_spec_bytes(s);
    }
    let n: usize = bytes.len();
    let start: usize = if n > 0 && bytes[0] == 43 {
        1
    } else {
        0
    };
    let ghost digits = unsigned_part(s@);
    assert(digits =~= s@.skip(start as int));
    if start == n {
        return None;
    }
    let mut i: usize = start;
    let mut value: u64 = 0;
    while i < n
        invariant
            start <= i <= n,
            start < n,
            n == s@.len(),
            bytes@.len() == n,
            is_ascii_chars(s@),
            forall|k: int| 0 <= k < n ==> #[trigger] bytes@[k] == s@[k] as u8,
            digits == unsigned_part(s@),
            digits == s@.skip(start as int),
            forall|k: int| 0 <= k < i - start ==> is_digit(#[trigger] digits[k]),
            value == decimal_value(digits.take(i - start)),
        decreases n - i,
    {
        let b: u8 = bytes[i];
        let ghost k = i - start;
        assert(digits[k] == s@[i as int]);
        if b < 48 || b > 57 {
            assert(!is_digit(digits[k]));
            return None;
        }
        proof {
            assert(is_digit(digits[k]));
            assert(digits.take(k + 1).drop_last() =~= digits.take(k));
            if (forall|j: int| 0 <= j < digits.len() ==> is_digit(#[trigger] digits[j])) {
                lemma_decimal_value_grows(digits, k + 1);
            }
        }
        let digit: u64 = (b - 48) as u64;
        match value.checked_mul(10) {
            Some(tens) => match tens.checked_add(digit) {
                Some(sum) => {
                    value = sum;
                },
                None => {
                    return None;
                },
            },
            None => {
                return None;
            },
        }
        i = i + 1;
    }
    assert(digits.take(n - start) =~= digits);
    Some(value)
}

/// A text is cut exactly where it is some text without the separator, the separator, and the
/// rest; it is not cut exactly where the separator is not in it.
pub proof fn law_split_once_cuts_at_the_first<T>(s: Seq<T>, head: Seq<T>, sep: T, tail: Seq<T>)
    ensures
        split_once(s, sep) == Some((head, tail)) <==> s == head + seq![sep] + tail
            && !head.contains(sep),
        split_once(s, sep) is None <==> !s.contains(sep),
{
    s.index_of_first_ensures(sep);
    if s == head + seq![sep] + tail && !head.contains(sep) {
        lemma_split_once_parts(s, head, sep, tail);
    }
    if s.contains(sep) {
        let i = s.index_of_first(sep)->0;
        assert(s =~= s.take(i) + seq![sep] + s.skip(i + 1));
        if s.take(i).contains(sep) {
            let k = choose|k: int| 0 <= k < s.take(i).len() && s.take(i)[k] == sep;
            assert(s[k] == sep);
        }
    }
}

/// A text without the separator is one piece.
pub proof fn law_split_of_one_piece<T>(s: Seq<T>, sep: T)
    requires
        !s.contains(sep),
    ensures
        split(s, sep) == seq![s],
{
    s.index_of_first_ensures(sep);
    assert(split(s, sep) =~= seq![s]);
}

/// Joining puts one separator behind every piece that another one follows, and nothing else.
pub proof fn law_join_piece_by_piece<T>(piece: Seq<T>, sep: T, rest: Seq<Seq<T>>)
    ensures
        join(Seq::<Seq<T>>::empty(), sep) == Seq::<T>::empty(),
        join(seq![piece], sep) == piece,
        rest.len() > 0 ==> join(seq![piece] + rest, sep) == piece + seq![sep] + join(rest, sep),
{
    assert((seq![piece] + rest).drop_first() =~= rest);
    assert(piece.push(sep) =~= piece + seq![sep]);
}

/// The texts of string slices are their own texts, in their order.
pub proof fn law_texts_one_by_one(v: Seq<&str>, i: int)
    requires
        0 <= i < v.len(),
    ensures
        texts(v).len() == v.len(),
        texts(v)[i] == v[i]@,
{
}

/// One more digit makes a number ten times as large and adds the digit, as long as the result is
/// a `u64`. Behind nothing, or behind a plus sign only, the digit is the number.
pub proof fn law_one_more_digit(s: Seq<char>, c: char)
    requires
        '0' <= c <= '9',
    ensures
        s.len() == 0 || s == seq!['+'] ==> u64_value(s.push(c)) == Some((c as int - 48) as u64),
        s.len() > 0 && s != seq!['+'] && u64_value(s) is None ==> u64_value(s.push(c)) is None,
        u64_value(s) matches Some(n) ==> if 10 * n + (c as int - 48) <= u64::MAX {
            u64_value(s.push(c)) is Some && u64_value(s.push(c))->0 == 10 * n + (c as int - 48)
        } else {
            u64_value(s.push(c)) is None
        },
{
    let before = unsigned_part(s);
    let digits = unsigned_part(s.push(c));
    assert(digits =~= before.push(c));
    assert(digits.drop_last() =~= before);
    assert(decimal_value(digits) == 10 * decimal_value(before) + (c as nat - '0' as nat));
    assert forall|i: int| 0 <= i < before.len() implies before[i] == digits[i] by {}
    if s.len() == 0 || s == seq!['+'] {
        assert(before =~= seq![]);
        assert(decimal_value(before) == 0);
    } else {
        if before.len() == 0 {
            assert(s =~= seq!['+']);
        }
        if exists|i: int| 0 <= i < before.len() && !is_digit(#[trigger] before[i]) {
            let i = choose|i: int| 0 <= i < before.len() && !is_digit(#[trigger] before[i]);
            assert(!is_digit(digits[i]));
        }
    }
}

/// A text that is empty or that ends in anything but a digit is no number.
pub proof fn law_numbers_end_in_a_digit(s: Seq<char>, c: char)
    requires
        !('0' <= c <= '9'),
    ensures
        u64_value(s.push(c)) is None,
        u64_value(Seq::<char>::empty()) is None,
{
    let digits = unsigned_part(s.push(c));
    if digits.len() > 0 {
        assert(digits.last() == c);
        assert(!is_digit(digits[digits.len() - 1]));
    }
}

} // verus!
