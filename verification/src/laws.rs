//! What holds of the library as a whole.

use crate::action::{action_named, law_actions_have_distinct_names, Action};
use crate::error::ErrorView;
use crate::fields::{
    action_of, devpath_of, env_of, field_error, fields, first_error, is_reserved, last_value,
    lemma_checked_values, lemma_keys_differ, seq_of, subsystem_of,
};
use crate::outside::{compact_text, path_bytes, path_components, text_map};
use crate::path::{
    components, current_dir, final_name, is_absolute, joined, starts_at_root, without_leading_dot,
    Component, SEPARATOR,
};
use crate::text::{
    decimal_value, is_digit, join, law_split_of_one_piece, law_split_once_cuts_at_the_first,
    lemma_encode_ascii, lemma_encode_concat, lemma_split_once_parts, lines, split, split_once,
    strip_carriage_return, u64_value, unsigned_part,
};
use crate::uevent::{
    netlink_error, netlink_fields, sysfs_devpath, sysfs_error, sysfs_fields, sysfs_subsystem,
    SysfsReads, UEvent,
};
use compact_str::CompactString;
use std::hash::BuildHasher;
use std::path::PathBuf;
use vstd::prelude::*;
use vstd::utf8::{decode_utf8, encode_utf8, valid_utf8};

verus! {

/// Joining what a text was split into gives the text back, and no piece holds the separator.
pub proof fn law_join_undoes_split<T>(s: Seq<T>, sep: T)
    ensures
        join(split(s, sep), sep) == s,
        split(s, sep).len() > 0,
        forall|i: int|
            0 <= i < split(s, sep).len() ==> !(#[trigger] split(s, sep)[i]).contains(sep),
    decreases s.len(),
{
    s.index_of_first_ensures(sep);
    match split_once(s, sep) {
        Some((head, tail)) => {
            law_join_undoes_split(tail, sep);
            assert(split(s, sep) =~= seq![head] + split(tail, sep));
            assert(split(s, sep).drop_first() =~= split(tail, sep));
            assert(s =~= head.push(sep) + tail);
            assert forall|i: int| 0 <= i < split(s, sep).len() implies !(#[trigger] split(
                s,
                sep,
            )[i]).contains(sep) by {
                if i > 0 {
                    assert(split(s, sep)[i] == split(tail, sep)[i - 1]);
                } else if head.contains(sep) {
                    let k = choose|k: int| 0 <= k < head.len() && head[k] == sep;
                    assert(s[k] == sep);
                }
            }
        },
        None => {},
    }
}

/// Splitting gives back the pieces that were joined, of which none holds the separator.
pub proof fn law_split_undoes_join<T>(pieces: Seq<Seq<T>>, sep: T)
    requires
        pieces.len() > 0,
        forall|i: int| 0 <= i < pieces.len() ==> !(#[trigger] pieces[i]).contains(sep),
    ensures
        split(join(pieces, sep), sep) == pieces,
    decreases pieces.len(),
{
    let s = join(pieces, sep);
    if pieces.len() == 1 {
        s.index_of_first_ensures(sep);
        assert(split(s, sep) =~= pieces);
    } else {
        let rest = pieces.drop_first();
        assert forall|i: int| 0 <= i < rest.len() implies !(#[trigger] rest[i]).contains(sep) by {
            assert(rest[i] == pieces[i + 1]);
        }
        law_split_undoes_join(rest, sep);
        assert(s =~= pieces[0] + seq![sep] + join(rest, sep));
        lemma_split_once_parts(s, pieces[0], sep, join(rest, sep));
        assert(split(s, sep) =~= pieces);
    }
}

/// What two texts with a separator between them split into: the pieces of the one, then those of
/// the other.
pub proof fn law_split_piece_by_piece<T>(a: Seq<T>, sep: T, b: Seq<T>)
    ensures
        split(a + seq![sep] + b, sep) == split(a, sep) + split(b, sep),
    decreases a.len(),
{
    let s = a + seq![sep] + b;
    a.index_of_first_ensures(sep);
    match split_once(a, sep) {
        Some((head, tail)) => {
            law_split_piece_by_piece(tail, sep, b);
            if head.contains(sep) {
                let k = choose|k: int| 0 <= k < head.len() && head[k] == sep;
                assert(a[k] == sep);
            }
            assert(s =~= head + seq![sep] + (tail + seq![sep] + b));
            lemma_split_once_parts(s, head, sep, tail + seq![sep] + b);
            assert(split(s, sep) =~= split(a, sep) + split(b, sep));
        },
        None => {
            lemma_split_once_parts(s, a, sep, b);
            assert(split(s, sep) =~= split(a, sep) + split(b, sep));
        },
    }
}

/// A separator behind a text adds one empty piece.
proof fn lemma_split_push<T>(s: Seq<T>, sep: T)
    ensures
        split(s.push(sep), sep) == split(s, sep).push(Seq::empty()),
{
    let empty = Seq::<T>::empty();
    law_split_piece_by_piece(s, sep, empty);
    empty.index_of_first_ensures(sep);
    assert(split(empty, sep) =~= seq![empty]);
    assert(s + seq![sep] + empty =~= s.push(sep));
    assert(split(s, sep) + seq![empty] =~= split(s, sep).push(empty));
}

/// The fields of some lines and then more lines are the fields of the ones, then of the others.
pub proof fn law_fields_one_by_one(a: Seq<Seq<char>>, b: Seq<Seq<char>>)
    ensures
        fields(a + b) == fields(a) + fields(b),
    decreases b.len(),
{
    if b.len() == 0 {
        assert(a + b =~= a);
        assert(fields(a) + fields(b) =~= fields(a));
    } else {
        assert((a + b).drop_last() =~= a + b.drop_last());
        law_fields_one_by_one(a, b.drop_last());
        assert(fields(a + b) =~= fields(a) + fields(b));
    }
}

/// A line without a `=`, such as the header of a packet, changes nothing wherever it stands.
pub proof fn law_other_lines_are_ignored(
    before: Seq<Seq<char>>,
    line: Seq<char>,
    after: Seq<Seq<char>>,
)
    requires
        !line.contains('='),
    ensures
        fields(before + seq![line] + after) == fields(before + after),
{
    law_fields_one_by_one(before + seq![line], after);
    law_fields_one_by_one(before, after);
    line.index_of_first_ensures('=');
    assert((before + seq![line]).drop_last() =~= before);
    assert((before + seq![line]).last() == line);
}

/// `fields` as lines.
pub open spec fn field_lines(fields: Seq<(Seq<char>, Seq<char>)>) -> Seq<Seq<char>> {
    fields.map_values(|f: (Seq<char>, Seq<char>)| f.0 + seq!['='] + f.1)
}

/// Fields that are written as lines are read back, whatever their values; no key may hold a `=`.
pub proof fn law_fields_are_read_back(fs: Seq<(Seq<char>, Seq<char>)>)
    requires
        forall|i: int| 0 <= i < fs.len() ==> !(#[trigger] fs[i]).0.contains('='),
    ensures
        fields(field_lines(fs)) == fs,
    decreases fs.len(),
{
    let ls = field_lines(fs);
    if fs.len() == 0 {
        assert(fields(ls) =~= fs);
    } else {
        let rest = fs.drop_last();
        assert forall|i: int| 0 <= i < rest.len() implies !(#[trigger] rest[i]).0.contains('=') by {
            assert(rest[i] == fs[i]);
        }
        law_fields_are_read_back(rest);
        assert(ls.drop_last() =~= field_lines(rest));
        let last = fs.last();
        assert(fs[fs.len() - 1] == last);
        lemma_split_once_parts(ls.last(), last.0, '=', last.1);
        assert(fields(ls) =~= fs);
    }
}

/// Whether `fields` can be written into a netlink packet: no key holds a `=`, and nothing holds a
/// NUL character.
pub open spec fn fit_netlink(fields: Seq<(Seq<char>, Seq<char>)>) -> bool {
    forall|i: int|
        0 <= i < fields.len() ==> {
            &&& !(#[trigger] fields[i]).0.contains('=')
            &&& !fields[i].0.contains('\0')
            &&& !fields[i].1.contains('\0')
        }
}

/// A netlink packet: a header and `fields`, with a NUL character between them.
pub open spec fn packet(header: Seq<char>, fields: Seq<(Seq<char>, Seq<char>)>) -> Seq<u8> {
    encode_utf8(join(seq![header] + field_lines(fields), '\0'))
}

/// A character that is in neither part nor between them is not in the whole.
proof fn lemma_contains_parts(a: Seq<char>, c: char, b: Seq<char>, x: char)
    requires
        !a.contains(x),
        !b.contains(x),
        c != x,
    ensures
        !(a + seq![c] + b).contains(x),
{
    let s = a + seq![c] + b;
    if s.contains(x) {
        let k = choose|k: int| 0 <= k < s.len() && s[k] == x;
        if k < a.len() {
            assert(a[k] == x);
        } else if k > a.len() {
            assert(b[k - a.len() - 1] == x);
        }
    }
}

/// The fields that were put into a packet are the fields that are read from it.
pub proof fn law_packet_fields_are_read_back(
    header: Seq<char>,
    fs: Seq<(Seq<char>, Seq<char>)>,
)
    requires
        fit_netlink(fs),
        !header.contains('='),
        !header.contains('\0'),
    ensures
        valid_utf8(packet(header, fs)),
        netlink_fields(packet(header, fs)) == fs,
{
    let pieces = seq![header] + field_lines(fs);
    let text = join(pieces, '\0');
    vstd::utf8::encode_utf8_valid_utf8(text);
    vstd::utf8::encode_utf8_decode_utf8(text);
    assert forall|i: int| 0 <= i < pieces.len() implies !(#[trigger] pieces[i]).contains('\0') by {
        if i > 0 {
            let f = fs[i - 1];
            assert(pieces[i] == f.0 + seq!['='] + f.1);
            lemma_contains_parts(f.0, '=', f.1, '\0');
        }
    }
    law_split_undoes_join(pieces, '\0');
    law_other_lines_are_ignored(seq![], header, field_lines(fs));
    assert(seq![] + seq![header] + field_lines(fs) =~= pieces);
    assert(Seq::<Seq<char>>::empty() + field_lines(fs) =~= field_lines(fs));
    law_fields_are_read_back(fs);
}

/// A NUL character behind a packet, as the kernel puts it there, changes nothing.
pub proof fn law_trailing_nul_is_ignored(pkt: Seq<u8>)
    ensures
        netlink_error(pkt.push(0)) == netlink_error(pkt),
        valid_utf8(pkt) ==> netlink_fields(pkt.push(0)) == netlink_fields(pkt),
{
    let longer = pkt.push(0);
    let n = pkt.len() as int;
    let nul = seq![0u8];
    if valid_utf8(longer) {
        vstd::utf8::is_char_boundary_iff_not_is_continuation_byte(longer, n);
        vstd::utf8::valid_utf8_split(longer, n);
        assert(longer.subrange(0, n) =~= pkt);
    }
    if valid_utf8(pkt) {
        let text = decode_utf8(pkt);
        vstd::utf8::decode_utf8_encode_utf8(pkt);
        lemma_encode_ascii('\0');
        lemma_encode_concat(text, seq!['\0']);
        assert(text + seq!['\0'] =~= text.push('\0'));
        assert(encode_utf8(text.push('\0')) =~= longer);
        vstd::utf8::encode_utf8_valid_utf8(text.push('\0'));
        vstd::utf8::encode_utf8_decode_utf8(text.push('\0'));
        lemma_split_push(text, '\0');
        let pieces = split(text, '\0');
        let empty = Seq::<char>::empty();
        law_other_lines_are_ignored(pieces, empty, seq![]);
        assert(pieces + seq![empty] + Seq::<Seq<char>>::empty() =~= pieces.push(empty));
        assert(pieces + Seq::<Seq<char>>::empty() =~= pieces);
    }
}

/// What is said of a key later counts; what is said earlier only counts where nothing follows.
pub proof fn law_later_fields_win(
    a: Seq<(Seq<char>, Seq<char>)>,
    b: Seq<(Seq<char>, Seq<char>)>,
    key: Seq<char>,
)
    ensures
        last_value(a + b, key) == match last_value(b, key) {
            Some(v) => Some(v),
            None => last_value(a, key),
        },
    decreases b.len(),
{
    if b.len() == 0 {
        assert(a + b =~= a);
    } else {
        assert((a + b).drop_last() =~= a + b.drop_last());
        law_later_fields_win(a, b.drop_last(), key);
    }
}

/// The first error counts: what follows it changes nothing.
pub proof fn law_first_error_wins(
    a: Seq<(Seq<char>, Seq<char>)>,
    b: Seq<(Seq<char>, Seq<char>)>,
)
    ensures
        first_error(a + b) == match first_error(a) {
            Some(e) => Some(e),
            None => first_error(b),
        },
    decreases b.len(),
{
    if b.len() == 0 {
        assert(a + b =~= a);
    } else {
        assert((a + b).drop_last() =~= a + b.drop_last());
        law_first_error_wins(a, b.drop_last());
    }
}

/// The fields that have a place of their own are never among the miscellaneous arguments.
pub proof fn law_env_holds_no_reserved_key(fs: Seq<(Seq<char>, Seq<char>)>, key: Seq<char>)
    requires
        is_reserved(key),
    ensures
        !env_of(fs).contains_key(key),
{
}

/// A field that has a place of its own does not change the miscellaneous arguments.
pub proof fn law_reserved_fields_leave_env(
    before: Seq<(Seq<char>, Seq<char>)>,
    field: (Seq<char>, Seq<char>),
    after: Seq<(Seq<char>, Seq<char>)>,
)
    requires
        is_reserved(field.0),
    ensures
        env_of(before + seq![field] + after) == env_of(before + after),
{
    assert forall|k: Seq<char>| !is_reserved(k) implies #[trigger] last_value(
        before + seq![field] + after,
        k,
    ) == last_value(before + after, k) by {
        law_later_fields_win(before + seq![field], after, k);
        law_later_fields_win(before, seq![field], k);
        law_later_fields_win(before, after, k);
        lemma_single(field, k);
    }
    assert(env_of(before + seq![field] + after) =~= env_of(before + after));
}

/// What a single field says.
proof fn lemma_single(field: (Seq<char>, Seq<char>), key: Seq<char>)
    ensures
        last_value(seq![field], key) == if field.0 == key {
            Some(field.1)
        } else {
            None
        },
        first_error(seq![field]) == field_error(field),
{
    assert(seq![field].drop_last() =~= seq![]);
    assert(seq![field].last() == field);
    assert(last_value(seq![], key) is None);
    assert(first_error(seq![]) is None);
}

/// The order of two fields with different keys does not matter: neither to what the fields say
/// nor to whether there is an error among them.
pub proof fn law_order_of_keys_is_free(
    before: Seq<(Seq<char>, Seq<char>)>,
    f: (Seq<char>, Seq<char>),
    g: (Seq<char>, Seq<char>),
    after: Seq<(Seq<char>, Seq<char>)>,
)
    requires
        f.0 != g.0,
    ensures
        ({
            let fg = before + seq![f] + seq![g] + after;
            let gf = before + seq![g] + seq![f] + after;
            &&& first_error(fg) is None <==> first_error(gf) is None
            &&& action_of(fg) == action_of(gf)
            &&& devpath_of(fg) == devpath_of(gf)
            &&& subsystem_of(fg) == subsystem_of(gf)
            &&& seq_of(fg) == seq_of(gf)
            &&& env_of(fg) == env_of(gf)
        }),
{
    let fg = before + seq![f] + seq![g] + after;
    let gf = before + seq![g] + seq![f] + after;
    assert forall|k: Seq<char>| #[trigger] last_value(fg, k) == last_value(gf, k) by {
        law_later_fields_win(before + seq![f] + seq![g], after, k);
        law_later_fields_win(before + seq![f], seq![g], k);
        law_later_fields_win(before, seq![f], k);
        law_later_fields_win(before + seq![g] + seq![f], after, k);
        law_later_fields_win(before + seq![g], seq![f], k);
        law_later_fields_win(before, seq![g], k);
        lemma_single(f, k);
        lemma_single(g, k);
    }
    law_first_error_wins(before + seq![f] + seq![g], after);
    law_first_error_wins(before + seq![f], seq![g]);
    law_first_error_wins(before, seq![f]);
    law_first_error_wins(before + seq![g] + seq![f], after);
    law_first_error_wins(before + seq![g], seq![f]);
    law_first_error_wins(before, seq![g]);
    lemma_single(f, f.0);
    lemma_single(g, g.0);
    assert(env_of(fg) =~= env_of(gf));
}

/// What a line feed ends is one line, then come the lines of what follows it. A carriage return
/// before the line feed belongs to the end of the line; any other one to the line. What stands
/// behind the last line feed is a line as it is, if it is not empty.
pub proof fn law_lines_one_by_one(line: Seq<char>, rest: Seq<char>)
    requires
        !line.contains('\n'),
    ensures
        lines(line + seq!['\r', '\n'] + rest) == seq![line] + lines(rest),
        line.len() == 0 || line.last() != '\r' ==> lines(line + seq!['\n'] + rest) == seq![line]
            + lines(rest),
        lines(line) == if line.len() == 0 {
            seq![]
        } else {
            seq![line]
        },
{
    law_split_of_one_piece(line, '\n');
    assert(split(line, '\n').drop_last() =~= seq![]);
    assert(lines(line) =~= if line.len() == 0 {
        seq![]
    } else {
        seq![line]
    });
    lemma_ended_line(line, rest);
    let returned = line.push('\r');
    if returned.contains('\n') {
        let k = choose|k: int| 0 <= k < returned.len() && returned[k] == '\n';
        assert(line[k] == '\n');
    }
    lemma_ended_line(returned, rest);
    assert(returned.drop_last() =~= line);
    assert(line + seq!['\r', '\n'] + rest =~= returned + seq!['\n'] + rest);
}

/// A line that a line feed ends, and the lines behind it.
proof fn lemma_ended_line(line: Seq<char>, rest: Seq<char>)
    requires
        !line.contains('\n'),
    ensures
        lines(line + seq!['\n'] + rest) == seq![strip_carriage_return(line)] + lines(rest),
{
    let strip = |p: Seq<char>| strip_carriage_return(p);
    let later = split(rest, '\n');
    let pieces = split(line + seq!['\n'] + rest, '\n');
    law_split_piece_by_piece(line, '\n', rest);
    law_split_of_one_piece(line, '\n');
    law_join_undoes_split(rest, '\n');
    assert(pieces.drop_last() =~= seq![line] + later.drop_last());
    assert(pieces.drop_last().map_values(strip) =~= seq![strip_carriage_return(line)]
        + later.drop_last().map_values(strip));
    assert(lines(line + seq!['\n'] + rest) =~= seq![strip_carriage_return(line)] + lines(rest));
}

/// A single line is a field exactly if there is a `=` in it. The first `=` ends the key, and all
/// that follows it is the value.
pub proof fn law_a_line_is_a_field(line: Seq<char>, key: Seq<char>, value: Seq<char>)
    ensures
        fields(Seq::<Seq<char>>::empty()) == Seq::<(Seq<char>, Seq<char>)>::empty(),
        fields(seq![line]) == Seq::<(Seq<char>, Seq<char>)>::empty() <==> !line.contains('='),
        fields(seq![line]) == seq![(key, value)] <==> line == key + seq!['='] + value
            && !key.contains('='),
{
    law_split_once_cuts_at_the_first(line, key, '=', value);
    let none = Seq::<(Seq<char>, Seq<char>)>::empty();
    assert(seq![line].drop_last() =~= seq![]);
    assert(fields(seq![]) =~= none);
    match split_once(line, '=') {
        Some(field) => {
            assert(fields(seq![line]) =~= seq![field]);
            assert(fields(seq![line])[0] == field);
            assert(fields(seq![line]).len() == 1);
            if fields(seq![line]) == seq![(key, value)] {
                assert(seq![(key, value)][0] == field);
            }
        },
        None => {
            assert(fields(seq![line]) =~= none);
            assert(fields(seq![line]).len() != seq![(key, value)].len());
        },
    }
}

/// The fields of a packet: those of the text before a NUL character, then those of the text
/// behind it. A text without NUL characters is a field exactly if there is a `=` in it.
pub proof fn law_packet_fields_one_by_one(
    a: Seq<char>,
    b: Seq<char>,
    key: Seq<char>,
    value: Seq<char>,
)
    ensures
        netlink_fields(encode_utf8(a + seq!['\0'] + b)) == netlink_fields(encode_utf8(a))
            + netlink_fields(encode_utf8(b)),
        !a.contains('\0') && !a.contains('=') ==> netlink_fields(encode_utf8(a)) == Seq::<
            (Seq<char>, Seq<char>),
        >::empty(),
        !a.contains('\0') && a == key + seq!['='] + value && !key.contains('=') ==> netlink_fields(
            encode_utf8(a),
        ) == seq![(key, value)],
{
    vstd::utf8::encode_utf8_decode_utf8(a);
    vstd::utf8::encode_utf8_decode_utf8(b);
    vstd::utf8::encode_utf8_decode_utf8(a + seq!['\0'] + b);
    law_split_piece_by_piece(a, '\0', b);
    law_fields_one_by_one(split(a, '\0'), split(b, '\0'));
    if !a.contains('\0') {
        law_split_of_one_piece(a, '\0');
        law_a_line_is_a_field(a, key, value);
    }
}

/// The fields of the file `uevent`: that of its first line, if it is one, then those of what
/// follows the line feed.
pub proof fn law_uevent_file_line_by_line(line: Seq<char>, rest: Seq<char>)
    requires
        !line.contains('\n'),
    ensures
        sysfs_fields(line + seq!['\r', '\n'] + rest) == fields(seq![line]) + sysfs_fields(rest),
        line.len() == 0 || line.last() != '\r' ==> sysfs_fields(line + seq!['\n'] + rest) == fields(
            seq![line],
        ) + sysfs_fields(rest),
        sysfs_fields(line) == fields(seq![line]),
{
    law_lines_one_by_one(line, rest);
    law_fields_one_by_one(seq![line], lines(rest));
    if line.len() == 0 {
        law_a_line_is_a_field(line, line, line);
    }
}

/// The value of a key is that of the field with this key behind which no other one has it.
pub proof fn law_the_last_field_counts(fs: Seq<(Seq<char>, Seq<char>)>, i: int)
    requires
        0 <= i < fs.len(),
        forall|j: int| i < j < fs.len() ==> (#[trigger] fs[j]).0 != fs[i].0,
    ensures
        last_value(fs, fs[i].0) == Some(fs[i].1),
    decreases fs.len(),
{
    if i < fs.len() - 1 {
        assert(fs[fs.len() - 1].0 != fs[i].0);
        let rest = fs.drop_last();
        assert forall|j: int| i < j < rest.len() implies (#[trigger] rest[j]).0 != rest[i].0 by {
            assert(rest[j] == fs[j]);
        }
        law_the_last_field_counts(rest, i);
    }
}

/// A key has a value exactly if a field has it, and the value is that of such a field, behind
/// which no other one has the key.
pub proof fn law_values_come_from_fields(fs: Seq<(Seq<char>, Seq<char>)>, key: Seq<char>)
    ensures
        last_value(fs, key) is Some <==> exists|i: int|
            0 <= i < fs.len() && (#[trigger] fs[i]).0 == key,
        last_value(fs, key) matches Some(v) ==> exists|i: int|
            0 <= i < fs.len() && #[trigger] fs[i] == (key, v) && forall|j: int|
                i < j < fs.len() ==> (#[trigger] fs[j]).0 != key,
    decreases fs.len(),
{
    if last_value(fs, key) is None {
        if exists|i: int| 0 <= i < fs.len() && (#[trigger] fs[i]).0 == key {
            let i = choose|i: int| 0 <= i < fs.len() && (#[trigger] fs[i]).0 == key;
            let rest = fs.drop_last();
            law_values_come_from_fields(rest, key);
            assert(rest[i].0 == key);
        }
    } else if fs.last().0 == key {
        let n = fs.len() - 1;
        assert(fs[n] == (key, fs.last().1));
    } else {
        let rest = fs.drop_last();
        let v = last_value(rest, key)->0;
        law_values_come_from_fields(rest, key);
        let i = choose|i: int|
            0 <= i < rest.len() && #[trigger] rest[i] == (key, v) && forall|j: int|
                i < j < rest.len() ==> (#[trigger] rest[j]).0 != key;
        assert(fs[i] == (key, v));
        assert forall|j: int| i < j < fs.len() implies (#[trigger] fs[j]).0 != key by {
            if j < rest.len() {
                assert(rest[j].0 != key);
            }
        }
    }
}

/// Where nothing is wrong with the fields before it, a field is the first error exactly if it is
/// an `ACTION` that names no action or a `SEQNUM` that is no number. The error has its value.
pub proof fn law_errors_are_those_of_values(fs: Seq<(Seq<char>, Seq<char>)>, i: int)
    requires
        0 <= i <= fs.len(),
        forall|j: int|
            0 <= j < i ==> {
                &&& (#[trigger] fs[j]).0 == "ACTION"@ ==> action_named(fs[j].1) is Some
                &&& fs[j].0 == "SEQNUM"@ ==> u64_value(fs[j].1) is Some
            },
    ensures
        i == fs.len() ==> first_error(fs) is None,
        i < fs.len() && fs[i].0 == "ACTION"@ && action_named(fs[i].1) is None ==> first_error(fs)
            == Some(ErrorView::UnexpectedAction(fs[i].1)),
        i < fs.len() && fs[i].0 == "SEQNUM"@ && u64_value(fs[i].1) is None ==> first_error(fs)
            == Some(ErrorView::InvalidSeqNum(fs[i].1)),
    decreases fs.len(),
{
    lemma_keys_differ();
    if fs.len() > 0 {
        let rest = fs.drop_last();
        let before = if i < fs.len() {
            i
        } else {
            i - 1
        };
        assert forall|j: int| 0 <= j < before implies ((#[trigger] rest[j]).0 == "ACTION"@
            ==> action_named(rest[j].1) is Some) && (rest[j].0 == "SEQNUM"@ ==> u64_value(
            rest[j].1,
        ) is Some) by {
            assert(rest[j] == fs[j]);
        }
        assert(fs.last() == fs[fs.len() - 1]);
        law_errors_are_those_of_values(rest, before);
    }
}

/// There is no error only where every `ACTION` names an action and every `SEQNUM` is a number.
pub proof fn law_no_error_means_correct_values(fs: Seq<(Seq<char>, Seq<char>)>, i: int)
    requires
        first_error(fs) is None,
        0 <= i < fs.len(),
    ensures
        fs[i].0 == "ACTION"@ ==> action_named(fs[i].1) is Some,
        fs[i].0 == "SEQNUM"@ ==> u64_value(fs[i].1) is Some,
    decreases fs.len(),
{
    lemma_keys_differ();
    if i < fs.len() - 1 {
        law_no_error_means_correct_values(fs.drop_last(), i);
        assert(fs.drop_last()[i] == fs[i]);
    }
}

/// `ACTION`, `DEVPATH`, `SUBSYSTEM` and `SEQNUM` are never among the miscellaneous arguments.
/// Every other key that a field has is, with its last value, and no key else is.
pub proof fn law_env_holds_every_other_key(fs: Seq<(Seq<char>, Seq<char>)>, key: Seq<char>)
    ensures
        env_of(fs).contains_key(key) <==> key != "ACTION"@ && key != "DEVPATH"@ && key
            != "SUBSYSTEM"@ && key != "SEQNUM"@ && exists|i: int|
            0 <= i < fs.len() && (#[trigger] fs[i]).0 == key,
        key != "ACTION"@ && key != "DEVPATH"@ && key != "SUBSYSTEM"@ && key != "SEQNUM"@ ==> (
        last_value(fs, key) matches Some(v) ==> env_of(fs).contains_key(key) && env_of(fs)[key]
            == v),
{
    law_values_come_from_fields(fs, key);
}

/// A number in decimal notation.
pub open spec fn decimal(n: nat) -> Seq<char>
    decreases n,
{
    let digit = (48 + n % 10) as char;
    if n < 10 {
        seq![digit]
    } else {
        decimal(n / 10).push(digit)
    }
}

/// Decimal notation is made of digits, and of the right value.
proof fn lemma_decimal(n: nat)
    ensures
        decimal(n).len() > 0,
        forall|i: int| 0 <= i < decimal(n).len() ==> is_digit(#[trigger] decimal(n)[i]),
        decimal_value(decimal(n)) == n,
    decreases n,
{
    let digit = (48 + n % 10) as char;
    if n < 10 {
        assert(decimal(n).drop_last() =~= seq![]);
        assert(decimal_value(seq![]) == 0);
    } else {
        lemma_decimal(n / 10);
        assert(decimal(n).drop_last() =~= decimal(n / 10));
    }
}

/// Every number is read back from its decimal notation.
pub proof fn law_numbers_are_read_back(n: u64)
    ensures
        u64_value(decimal(n as nat)) == Some(n),
{
    lemma_decimal(n as nat);
    assert(is_digit(decimal(n as nat)[0]));
    assert(unsigned_part(decimal(n as nat)) == decimal(n as nat));
}

/// The fields that the kernel puts into a packet for an event.
pub open spec fn event_fields(
    action: Action,
    devpath: Seq<char>,
    subsystem: Seq<char>,
    env: Seq<(Seq<char>, Seq<char>)>,
    seq: u64,
) -> Seq<(Seq<char>, Seq<char>)> {
    seq![("ACTION"@, action.name()), ("DEVPATH"@, devpath), ("SUBSYSTEM"@, subsystem)] + env
        + seq![("SEQNUM"@, decimal(seq as nat))]
}

/// The event that was put into a packet is the event that is read from it.
pub proof fn law_events_are_read_back(
    header: Seq<char>,
    action: Action,
    devpath: Seq<char>,
    subsystem: Seq<char>,
    env: Seq<(Seq<char>, Seq<char>)>,
    seq: u64,
)
    requires
        !header.contains('='),
        !header.contains('\0'),
        !devpath.contains('\0'),
        !subsystem.contains('\0'),
        fit_netlink(env),
        forall|i: int| 0 <= i < env.len() ==> !is_reserved((#[trigger] env[i]).0),
    ensures
        ({
            let pkt = packet(header, event_fields(action, devpath, subsystem, env, seq));
            let fs = netlink_fields(pkt);
            &&& netlink_error(pkt) is None
            &&& action_of(fs) == Some(action)
            &&& devpath_of(fs) == Some(encode_utf8(devpath))
            &&& subsystem_of(fs) == Some(subsystem)
            &&& seq_of(fs) == Some(seq)
            &&& env_of(fs) == env_of(env)
        }),
{
    let fa = ("ACTION"@, action.name());
    let fd = ("DEVPATH"@, devpath);
    let fb = ("SUBSYSTEM"@, subsystem);
    let fq = ("SEQNUM"@, decimal(seq as nat));
    let fs = event_fields(action, devpath, subsystem, env, seq);
    lemma_keys_differ();
    lemma_plain_texts(action, seq);
    assert(fit_netlink(fs)) by {
        assert forall|i: int| 0 <= i < fs.len() implies {
            &&& !(#[trigger] fs[i]).0.contains('=')
            &&& !fs[i].0.contains('\0')
            &&& !fs[i].1.contains('\0')
        } by {
            if 3 <= i < 3 + env.len() {
                assert(fs[i] == env[i - 3]);
            } else {
                assert(is_reserved(fs[i].0));
            }
        }
    }
    law_packet_fields_are_read_back(header, fs);
    let head = seq![fa] + seq![fd] + seq![fb];
    assert(seq![fa, fd, fb] =~= head);
    law_actions_have_distinct_names(action.name(), action);
    law_numbers_are_read_back(seq);
    lemma_single(fa, fa.0);
    lemma_single(fd, fd.0);
    lemma_single(fb, fb.0);
    lemma_single(fq, fq.0);
    lemma_no_errors(env);
    law_first_error_wins(head + env, seq![fq]);
    law_first_error_wins(head, env);
    law_first_error_wins(seq![fa] + seq![fd], seq![fb]);
    law_first_error_wins(seq![fa], seq![fd]);
    assert forall|k: Seq<char>| #[trigger] last_value(fs, k) == if k == fa.0 {
        Some(fa.1)
    } else if k == fd.0 {
        Some(fd.1)
    } else if k == fb.0 {
        Some(fb.1)
    } else if k == fq.0 {
        Some(fq.1)
    } else {
        last_value(env, k)
    } by {
        law_later_fields_win(head + env, seq![fq], k);
        law_later_fields_win(head, env, k);
        law_later_fields_win(seq![fa] + seq![fd], seq![fb], k);
        law_later_fields_win(seq![fa], seq![fd], k);
        lemma_single(fa, k);
        lemma_single(fd, k);
        lemma_single(fb, k);
        lemma_single(fq, k);
        if is_reserved(k) {
            lemma_no_value(env, k);
        }
    }
    assert(env_of(fs) =~= env_of(env));
}

/// Only fields that have a place of their own can be wrong.
proof fn lemma_no_errors(env: Seq<(Seq<char>, Seq<char>)>)
    requires
        forall|i: int| 0 <= i < env.len() ==> !is_reserved((#[trigger] env[i]).0),
    ensures
        first_error(env) is None,
    decreases env.len(),
{
    if env.len() > 0 {
        assert(!is_reserved(env[env.len() - 1].0));
        let rest = env.drop_last();
        assert forall|i: int| 0 <= i < rest.len() implies !is_reserved((#[trigger] rest[i]).0) by {
            assert(rest[i] == env[i]);
        }
        lemma_no_errors(rest);
    }
}

/// A key that no field has has no value.
proof fn lemma_no_value(env: Seq<(Seq<char>, Seq<char>)>, key: Seq<char>)
    requires
        forall|i: int| 0 <= i < env.len() ==> (#[trigger] env[i]).0 != key,
    ensures
        last_value(env, key) is None,
    decreases env.len(),
{
    if env.len() > 0 {
        assert(env[env.len() - 1].0 != key);
        let rest = env.drop_last();
        assert forall|i: int| 0 <= i < rest.len() implies (#[trigger] rest[i]).0 != key by {
            assert(rest[i] == env[i]);
        }
        lemma_no_value(rest, key);
    }
}

/// Neither the keys nor the names of actions nor numbers hold a separator.
proof fn lemma_plain_texts(action: Action, n: u64)
    ensures
        !action.name().contains('\0'),
        !decimal(n as nat).contains('\0'),
        forall|k: Seq<char>| #[trigger] is_reserved(k) ==> !k.contains('=') && !k.contains('\0'),
{
    reveal_strlit("add");
    reveal_strlit("remove");
    reveal_strlit("change");
    reveal_strlit("move");
    reveal_strlit("online");
    reveal_strlit("offline");
    reveal_strlit("bind");
    reveal_strlit("unbind");
    reveal_strlit("ACTION");
    reveal_strlit("DEVPATH");
    reveal_strlit("SUBSYSTEM");
    reveal_strlit("SEQNUM");
    lemma_decimal(n as nat);
    if decimal(n as nat).contains('\0') {
        let k = choose|k: int| 0 <= k < decimal(n as nat).len() && decimal(n as nat)[k] == '\0';
        assert(is_digit(decimal(n as nat)[k]));
    }
}

/// Being the same event is an equivalence.
pub proof fn law_same_event_is_an_equivalence<S: BuildHasher>(
    a: UEvent<S>,
    b: UEvent<S>,
    c: UEvent<S>,
)
    ensures
        a.same_as(a),
        a.same_as(b) == b.same_as(a),
        a.same_as(b) && b.same_as(c) ==> a.same_as(c),
{
}

/// The path of a kobject that was found in sysfs is absolute, whatever the paths were.
pub proof fn law_sysfs_devpath_is_absolute(
    canonical: Seq<Component>,
    sysfs_root: Seq<Component>,
)
    ensures
        is_absolute(sysfs_devpath(canonical, sysfs_root)),
{
}

/// A kobject's path is what its sysfs directory's path has below the sysfs root.
pub proof fn law_sysfs_root_becomes_the_root(sysfs_root: Seq<Component>, below: Seq<Component>)
    requires
        !is_absolute(below),
        without_leading_dot(below) == below,
    ensures
        sysfs_root.is_prefix_of(sysfs_root + below),
        sysfs_devpath(sysfs_root + below, sysfs_root) == seq![Component::Root] + below,
{
    assert((sysfs_root + below).skip(sysfs_root.len() as int) =~= below);
    assert((sysfs_root + below).subrange(0, sysfs_root.len() as int) =~= sysfs_root);
}

/// A device with the path `devpath` that sysfs shows below its root has that same path when it is
/// read from there.
pub proof fn law_sysfs_devpath_is_the_netlink_devpath(sysfs_root: Seq<u8>, devpath: Seq<u8>)
    requires
        starts_at_root(devpath),
    ensures
        components(sysfs_root).is_prefix_of(components(sysfs_root + devpath)),
        sysfs_devpath(components(sysfs_root + devpath), components(sysfs_root)) == components(
            devpath,
        ),
{
    let below = devpath.drop_first();
    let empty = Seq::<u8>::empty();
    let keep = |s: Seq<u8>| s.len() > 0 && s != current_dir();
    let part = |s: Seq<u8>| Component::Part(s);
    let whole = sysfs_root + devpath;
    let names = split(below, SEPARATOR).filter(keep).map_values(part);
    law_join_undoes_split(sysfs_root, SEPARATOR);
    law_split_piece_by_piece(sysfs_root, SEPARATOR, below);
    law_split_piece_by_piece(empty, SEPARATOR, below);
    empty.index_of_first_ensures(SEPARATOR);
    assert(split(empty, SEPARATOR) =~= seq![empty]);
    assert(devpath =~= empty + seq![SEPARATOR] + below);
    assert(whole =~= sysfs_root + seq![SEPARATOR] + below);
    assert(split(devpath, SEPARATOR).drop_first() =~= split(below, SEPARATOR));
    assert(components(devpath) =~= seq![Component::Root] + names);
    if sysfs_root.len() == 0 {
        assert(components(sysfs_root) =~= seq![]) by {
            assert(sysfs_root =~= empty);
            assert(split(sysfs_root, SEPARATOR).drop_first() =~= seq![]);
            reveal_with_fuel(Seq::<_>::filter, 1);
        }
        assert(whole =~= devpath);
        assert(components(whole).skip(0) =~= components(whole));
    } else {
        let dirs = split(sysfs_root, SEPARATOR).drop_first();
        assert(split(whole, SEPARATOR).drop_first() =~= dirs + split(below, SEPARATOR));
        Seq::filter_distributes_over_add(dirs, split(below, SEPARATOR), keep);
        assert((dirs.filter(keep) + split(below, SEPARATOR).filter(keep)).map_values(part)
            =~= dirs.filter(keep).map_values(part) + names);
        assert(components(whole) =~= components(sysfs_root) + names);
        assert(without_leading_dot(names) == names && !is_absolute(names)) by {
            if names.len() > 0 {
                split(below, SEPARATOR).lemma_filter_pred(keep, 0);
                assert(names[0] == part(split(below, SEPARATOR).filter(keep)[0]));
            }
        }
        law_sysfs_root_becomes_the_root(components(sysfs_root), names);
    }
}

/// Whether `fields` can be written into the file `uevent` of sysfs: no key holds a `=`, nothing
/// holds a line feed, and no value ends in a carriage return.
pub open spec fn fit_sysfs(fields: Seq<(Seq<char>, Seq<char>)>) -> bool {
    forall|i: int|
        0 <= i < fields.len() ==> {
            &&& !(#[trigger] fields[i]).0.contains('=')
            &&& !fields[i].0.contains('\n')
            &&& !fields[i].1.contains('\n')
            &&& fields[i].1.len() > 0 ==> fields[i].1.last() != '\r'
        }
}

/// The text of the file `uevent` of sysfs: a line for each field.
pub open spec fn uevent_file(fields: Seq<(Seq<char>, Seq<char>)>) -> Seq<char> {
    if fields.len() == 0 {
        seq![]
    } else {
        join(field_lines(fields), '\n').push('\n')
    }
}

/// The fields that were put into the file `uevent` are the fields that are read from it.
pub proof fn law_uevent_file_is_read_back(fs: Seq<(Seq<char>, Seq<char>)>)
    requires
        fit_sysfs(fs),
    ensures
        sysfs_fields(uevent_file(fs)) == fs,
{
    let pieces = field_lines(fs);
    let text = uevent_file(fs);
    if fs.len() == 0 {
        text.index_of_first_ensures('\n');
        assert(split(text, '\n') =~= seq![text]);
        assert(lines(text) =~= seq![]);
        assert(fields(seq![]) =~= fs);
    } else {
        assert forall|i: int| 0 <= i < pieces.len() implies !(#[trigger] pieces[i]).contains(
            '\n',
        ) by {
            assert(pieces[i] == fs[i].0 + seq!['='] + fs[i].1);
            lemma_contains_parts(fs[i].0, '=', fs[i].1, '\n');
        }
        law_split_undoes_join(pieces, '\n');
        lemma_split_push(join(pieces, '\n'), '\n');
        assert(pieces.push(seq![]).drop_last() =~= pieces);
        let strip = |p: Seq<char>| strip_carriage_return(p);
        assert(pieces.map_values(strip) =~= pieces) by {
            assert forall|i: int| 0 <= i < pieces.len() implies strip_carriage_return(
                #[trigger] pieces[i],
            ) == pieces[i] by {
                assert(pieces[i] == fs[i].0 + seq!['='] + fs[i].1);
                if fs[i].1.len() > 0 {
                    assert(pieces[i].last() == fs[i].1.last());
                } else {
                    assert(pieces[i].last() == '=');
                }
            }
        }
        assert(lines(text) =~= pieces);
        law_fields_are_read_back(fs);
    }
}

/// The same fields give the same arguments, and the same error if there is one, whether they come
/// in a netlink packet or stand in sysfs.
pub proof fn law_netlink_and_sysfs_agree(header: Seq<char>, fs: Seq<(Seq<char>, Seq<char>)>)
    requires
        fit_netlink(fs),
        fit_sysfs(fs),
        !header.contains('='),
        !header.contains('\0'),
    ensures
        env_of(netlink_fields(packet(header, fs))) == env_of(sysfs_fields(uevent_file(fs))),
        first_error(netlink_fields(packet(header, fs))) == first_error(
            sysfs_fields(uevent_file(fs)),
        ),
{
    law_packet_fields_are_read_back(header, fs);
    law_uevent_file_is_read_back(fs);
}

/// An event says what the last field of each key says: its action, its path, its subsystem and
/// its sequence number are the values of the keys of these names, and every other key is among
/// its arguments with its value.
pub proof fn law_events_say_the_last_values<S: BuildHasher>(
    event: UEvent<S>,
    fs: Seq<(Seq<char>, Seq<char>)>,
    i: int,
)
    requires
        event.says(fs),
        0 <= i < fs.len(),
        forall|j: int| i < j < fs.len() ==> (#[trigger] fs[j]).0 != fs[i].0,
    ensures
        fs[i].0 == "ACTION"@ ==> event.action.name() == fs[i].1,
        fs[i].0 == "DEVPATH"@ ==> path_bytes(event.devpath) == encode_utf8(fs[i].1),
        fs[i].0 == "SUBSYSTEM"@ ==> compact_text(event.subsystem) == fs[i].1,
        fs[i].0 == "SEQNUM"@ ==> u64_value(fs[i].1) == Some(event.seq),
        fs[i].0 != "ACTION"@ && fs[i].0 != "DEVPATH"@ && fs[i].0 != "SUBSYSTEM"@ && fs[i].0
            != "SEQNUM"@ ==> text_map(event.env@).contains_key(fs[i].0) && text_map(
            event.env@,
        )[fs[i].0] == fs[i].1,
{
    lemma_keys_differ();
    law_the_last_field_counts(fs, i);
    law_env_holds_every_other_key(fs, fs[i].0);
    law_actions_have_distinct_names(fs[i].1, event.action);
}

/// What an event says, some field says: it has none of its parts and none of its arguments from
/// elsewhere.
pub proof fn law_events_say_nothing_else<S: BuildHasher>(
    event: UEvent<S>,
    fs: Seq<(Seq<char>, Seq<char>)>,
    key: Seq<char>,
)
    requires
        event.says(fs),
    ensures
        exists|i: int|
            0 <= i < fs.len() && #[trigger] fs[i] == ("ACTION"@, event.action.name()),
        exists|i: int|
            0 <= i < fs.len() && (#[trigger] fs[i]).0 == "DEVPATH"@ && encode_utf8(fs[i].1)
                == path_bytes(event.devpath),
        exists|i: int|
            0 <= i < fs.len() && #[trigger] fs[i] == ("SUBSYSTEM"@, compact_text(event.subsystem)),
        exists|i: int|
            0 <= i < fs.len() && (#[trigger] fs[i]).0 == "SEQNUM"@ && u64_value(fs[i].1) == Some(
                event.seq,
            ),
        text_map(event.env@).contains_key(key) ==> key != "ACTION"@ && key != "DEVPATH"@ && key
            != "SUBSYSTEM"@ && key != "SEQNUM"@ && exists|i: int|
            0 <= i < fs.len() && #[trigger] fs[i] == (key, text_map(event.env@)[key]),
{
    law_values_come_from_fields(fs, "ACTION"@);
    law_values_come_from_fields(fs, "DEVPATH"@);
    law_values_come_from_fields(fs, "SUBSYSTEM"@);
    law_values_come_from_fields(fs, "SEQNUM"@);
    law_values_come_from_fields(fs, key);
    law_actions_have_distinct_names(last_value(fs, "ACTION"@)->0, event.action);
}

/// The event that is read from a packet has the action, the path, the subsystem, the arguments
/// and the sequence number that were put into it.
pub proof fn law_read_events_are_the_sent_ones<S: BuildHasher>(
    event: UEvent<S>,
    header: Seq<char>,
    action: Action,
    devpath: Seq<char>,
    subsystem: Seq<char>,
    env: Seq<(Seq<char>, Seq<char>)>,
    seq: u64,
)
    requires
        !header.contains('='),
        !header.contains('\0'),
        !devpath.contains('\0'),
        !subsystem.contains('\0'),
        fit_netlink(env),
        forall|i: int|
            0 <= i < env.len() ==> (#[trigger] env[i]).0 != "ACTION"@ && env[i].0 != "DEVPATH"@
                && env[i].0 != "SUBSYSTEM"@ && env[i].0 != "SEQNUM"@,
        event.says(
            netlink_fields(packet(header, event_fields(action, devpath, subsystem, env, seq))),
        ),
    ensures
        event.action == action,
        path_bytes(event.devpath) == encode_utf8(devpath),
        compact_text(event.subsystem) == subsystem,
        event.seq == seq,
        text_map(event.env@) == env_of(env),
        forall|i: int|
            0 <= i < env.len() && (forall|j: int|
                i < j < env.len() ==> (#[trigger] env[j]).0 != env[i].0) ==> text_map(
                event.env@,
            ).contains_key((#[trigger] env[i]).0) && text_map(event.env@)[env[i].0] == env[i].1,
{
    law_events_are_read_back(header, action, devpath, subsystem, env, seq);
    assert forall|i: int|
        0 <= i < env.len() && (forall|j: int|
            i < j < env.len() ==> (#[trigger] env[j]).0 != env[i].0) implies text_map(
        event.env@,
    ).contains_key((#[trigger] env[i]).0) && text_map(event.env@)[env[i].0] == env[i].1 by {
        law_the_last_field_counts(env, i);
    }
}

/// A packet is an event exactly if it is UTF-8, nothing is wrong with its fields, and among them
/// are an `ACTION`, a `DEVPATH`, a `SUBSYSTEM` and a `SEQNUM`.
pub proof fn law_complete_packets_are_events(pkt: Seq<u8>)
    ensures
        netlink_error(pkt) is None <==> {
            let fs = netlink_fields(pkt);
            &&& valid_utf8(pkt)
            &&& first_error(fs) is None
            &&& exists|i: int| 0 <= i < fs.len() && (#[trigger] fs[i]).0 == "ACTION"@
            &&& exists|i: int| 0 <= i < fs.len() && (#[trigger] fs[i]).0 == "DEVPATH"@
            &&& exists|i: int| 0 <= i < fs.len() && (#[trigger] fs[i]).0 == "SUBSYSTEM"@
            &&& exists|i: int| 0 <= i < fs.len() && (#[trigger] fs[i]).0 == "SEQNUM"@
        },
        netlink_error(pkt) == Some(ErrorView::InvalidUtf8) <==> !valid_utf8(pkt),
        valid_utf8(pkt) && first_error(netlink_fields(pkt)) is Some ==> netlink_error(pkt)
            == first_error(netlink_fields(pkt)),
{
    let fs = netlink_fields(pkt);
    lemma_checked_values(fs);
    law_values_come_from_fields(fs, "ACTION"@);
    law_values_come_from_fields(fs, "DEVPATH"@);
    law_values_come_from_fields(fs, "SUBSYSTEM"@);
    law_values_come_from_fields(fs, "SEQNUM"@);
}

/// Of the keys that a packet lacks, the error names the first in the order `ACTION`, `DEVPATH`,
/// `SUBSYSTEM`, `SEQNUM`.
pub proof fn law_missing_keys_are_named_in_order(pkt: Seq<u8>)
    requires
        valid_utf8(pkt),
        first_error(netlink_fields(pkt)) is None,
    ensures
        ({
            let fs = netlink_fields(pkt);
            let action = exists|i: int| 0 <= i < fs.len() && (#[trigger] fs[i]).0 == "ACTION"@;
            let devpath = exists|i: int| 0 <= i < fs.len() && (#[trigger] fs[i]).0 == "DEVPATH"@;
            let subsystem = exists|i: int|
                0 <= i < fs.len() && (#[trigger] fs[i]).0 == "SUBSYSTEM"@;
            let seq = exists|i: int| 0 <= i < fs.len() && (#[trigger] fs[i]).0 == "SEQNUM"@;
            &&& netlink_error(pkt) == Some(ErrorView::ActionNotFound) <==> !action
            &&& netlink_error(pkt) == Some(ErrorView::DevPathNotFound) <==> action && !devpath
            &&& netlink_error(pkt) == Some(ErrorView::SubsystemNotFound) <==> action && devpath
                && !subsystem
            &&& netlink_error(pkt) == Some(ErrorView::SeqMissing) <==> action && devpath
                && subsystem && !seq
        }),
{
    let fs = netlink_fields(pkt);
    lemma_checked_values(fs);
    law_values_come_from_fields(fs, "ACTION"@);
    law_values_come_from_fields(fs, "DEVPATH"@);
    law_values_come_from_fields(fs, "SUBSYSTEM"@);
    law_values_come_from_fields(fs, "SEQNUM"@);
}

/// Events are the same exactly if they have the same action, sequence number and subsystem, paths
/// of the same components, and the same arguments, whatever any of these are.
pub proof fn law_same_events_agree_in_every_part<S: BuildHasher>(a: UEvent<S>, b: UEvent<S>)
    ensures
        a.same_as(b) ==> a.action == b.action,
        a.same_as(b) ==> a.seq == b.seq,
        a.same_as(b) ==> compact_text(a.subsystem) == compact_text(b.subsystem),
        a.same_as(b) ==> components(path_bytes(a.devpath)) == components(path_bytes(b.devpath)),
        a.same_as(b) ==> text_map(a.env@) == text_map(b.env@),
        a.action == b.action && a.seq == b.seq && compact_text(a.subsystem) == compact_text(
            b.subsystem,
        ) && components(path_bytes(a.devpath)) == components(path_bytes(b.devpath)) && text_map(
            a.env@,
        ) == text_map(b.env@) ==> a.same_as(b),
{
}

/// Events that are the same say the same fields, but for how their paths are spelled.
pub proof fn law_same_events_say_the_same<S: BuildHasher>(
    a: UEvent<S>,
    b: UEvent<S>,
    fs: Seq<(Seq<char>, Seq<char>)>,
)
    requires
        a.same_as(b),
        path_bytes(a.devpath) == path_bytes(b.devpath),
    ensures
        a.says(fs) <==> b.says(fs),
{
}

/// A map between texts has the texts of the keys, each with the text of its value.
pub proof fn law_text_map_has_the_texts(
    m: Map<CompactString, CompactString>,
    c: CompactString,
    key: Seq<char>,
)
    ensures
        text_map(m).contains_key(key) <==> exists|d: CompactString| #[trigger]
            m.contains_key(d) && compact_text(d) == key,
        m.contains_key(c) && (forall|d: CompactString| #[trigger]
            m.contains_key(d) && compact_text(d) == compact_text(c) ==> d == c) ==> text_map(
            m,
        )[compact_text(c)] == compact_text(m[c]),
{
}

/// A path goes on behind a separator with one name. A `.` there, or nothing, adds no component.
pub proof fn law_components_one_by_one(path: Seq<u8>, name: Seq<u8>)
    requires
        !name.contains(47u8),
    ensures
        path.len() > 0 && name.len() > 0 && name != seq![46u8] ==> components(
            path + seq![47u8] + name,
        ) == components(path).push(Component::Part(name)),
        path.len() > 0 && (name.len() == 0 || name == seq![46u8]) ==> components(
            path + seq![47u8] + name,
        ) == components(path),
        name.len() > 0 && name != seq![46u8] ==> components(seq![47u8] + name) == seq![
            Component::Root,
            Component::Part(name),
        ],
        name.len() == 0 || name == seq![46u8] ==> components(seq![47u8] + name) == seq![
            Component::Root,
        ],
        name.len() > 0 ==> components(name) == seq![Component::Part(name)],
        name.len() == 0 ==> components(name) == Seq::<Component>::empty(),
{
    let keep = |s: Seq<u8>| s.len() > 0 && s != current_dir();
    let part = |s: Seq<u8>| Component::Part(s);
    let empty = Seq::<u8>::empty();
    let whole = path + seq![47u8] + name;
    let added = seq![name].filter(keep).map_values(part);
    law_split_of_one_piece(name, 47u8);
    law_split_of_one_piece(empty, 47u8);
    law_split_piece_by_piece(path, 47u8, name);
    law_split_piece_by_piece(empty, 47u8, name);
    law_join_undoes_split(path, 47u8);
    assert(added =~= if name.len() == 0 || name == seq![46u8] {
        seq![]
    } else {
        seq![Component::Part(name)]
    }) by {
        reveal_with_fuel(Seq::<_>::filter, 2);
        assert(seq![name].drop_last() =~= seq![]);
    }
    if path.len() > 0 {
        let dirs = split(path, 47u8).drop_first();
        assert(split(whole, 47u8).drop_first() =~= dirs + seq![name]);
        Seq::filter_distributes_over_add(dirs, seq![name], keep);
        assert((dirs.filter(keep) + seq![name].filter(keep)).map_values(part) =~= dirs.filter(
            keep,
        ).map_values(part) + added);
        assert(components(whole) =~= components(path) + added);
    }
    assert(empty + seq![47u8] + name =~= seq![47u8] + name);
    assert(split(seq![47u8] + name, 47u8).drop_first() =~= seq![name]);
    assert(components(seq![47u8] + name) =~= seq![Component::Root] + added);
    assert(components(name) =~= if name.len() == 0 {
        seq![]
    } else {
        seq![Component::Part(name)]
    }) by {
        if name.len() > 0 {
            assert(!starts_at_root(name));
        }
        assert(split(name, 47u8).drop_first() =~= seq![]);
        reveal_with_fuel(Seq::<_>::filter, 1);
    }
}

/// A path that is a directory, a separator and a name ends in that name, whatever the directory
/// is and whether or not a separator follows. So does a path that is a name only.
pub proof fn law_paths_end_in_their_last_name(dir: Seq<u8>, name: Seq<u8>)
    requires
        !name.contains(47u8),
        name.len() > 0,
        name != seq![46u8],
        name != seq![46u8, 46u8],
    ensures
        final_name(components(dir + seq![47u8] + name)) == Some(name),
        final_name(components(dir + seq![47u8] + name + seq![47u8])) == Some(name),
        final_name(components(name)) == Some(name),
{
    let empty = Seq::<u8>::empty();
    let whole = dir + seq![47u8] + name;
    law_components_one_by_one(dir, name);
    if dir.len() == 0 {
        assert(whole =~= seq![47u8] + name);
    }
    law_components_one_by_one(whole, empty);
    assert(whole + seq![47u8] + empty =~= whole + seq![47u8]);
}

/// The root directory, and a path that ends in `..`, end in no name.
pub proof fn law_other_paths_end_in_no_name(dir: Seq<u8>)
    ensures
        final_name(components(Seq::<u8>::empty())) is None,
        final_name(components(seq![47u8])) is None,
        final_name(components(seq![46u8])) is None,
        final_name(components(seq![46u8, 46u8])) is None,
        final_name(components(dir + seq![47u8] + seq![46u8, 46u8])) is None,
{
    let empty = Seq::<u8>::empty();
    law_components_one_by_one(dir, seq![46u8, 46u8]);
    law_components_one_by_one(dir, seq![46u8]);
    law_components_one_by_one(dir, empty);
    assert(seq![47u8] + empty =~= seq![47u8]);
    if dir.len() == 0 {
        assert(dir + seq![47u8] + seq![46u8, 46u8] =~= seq![47u8] + seq![46u8, 46u8]);
    }
}

/// The subsystem is the last name of the path to which the link leads: all of it, whatever
/// characters it holds.
pub proof fn law_subsystem_is_the_last_name(link: PathBuf, dir: Seq<u8>, name: Seq<u8>)
    requires
        !name.contains(47u8),
        name.len() > 0,
        name != seq![46u8],
        name != seq![46u8, 46u8],
        path_bytes(link) == dir + seq![47u8] + name || path_bytes(link) == dir + seq![47u8] + name
            + seq![47u8] || path_bytes(link) == name,
    ensures
        sysfs_subsystem(link) == name,
        final_name(path_components(link)) == Some(name),
{
    law_paths_end_in_their_last_name(dir, name);
}

/// A path goes on from another one, unless it is absolute; a `.` at its start is left out.
pub proof fn law_joined_paths(base: Seq<Component>, path: Seq<Component>)
    ensures
        joined(base, seq![Component::Root] + path) == seq![Component::Root] + path,
        joined(Seq::<Component>::empty(), path) == path,
        base.len() > 0 ==> joined(base, seq![Component::Part(seq![46u8])] + path) == base + path,
        base.len() > 0 && (path.len() == 0 || path[0] != Component::Root && path[0]
            != Component::Part(seq![46u8])) ==> joined(base, path) == base + path,
{
    assert((seq![Component::Part(seq![46u8])] + path).drop_first() =~= path);
}

/// The path of a kobject is the root and what follows the sysfs root in the path of its
/// directory.
pub proof fn law_sysfs_devpath_is_what_follows(root: Seq<Component>, below: Seq<Component>)
    ensures
        sysfs_devpath(root + below, root).len() > 0,
        sysfs_devpath(root + below, root)[0] == Component::Root,
        below.len() == 0 || below[0] != Component::Root && below[0] != Component::Part(seq![46u8])
            ==> sysfs_devpath(root + below, root) == seq![Component::Root] + below,
        sysfs_devpath(root + (seq![Component::Root] + below), root) == seq![Component::Root]
            + below,
        sysfs_devpath(root + (seq![Component::Part(seq![46u8])] + below), root) == seq![
            Component::Root,
        ] + below,
{
    let dotted = seq![Component::Part(seq![46u8])] + below;
    let rooted = seq![Component::Root] + below;
    assert((root + below).skip(root.len() as int) =~= below);
    assert((root + dotted).skip(root.len() as int) =~= dotted);
    assert((root + rooted).skip(root.len() as int) =~= rooted);
    law_joined_paths(seq![Component::Root], below);
}

/// What sysfs shows of a device is an event exactly if everything could be read, nothing is wrong
/// with the fields of `uevent`, the directory is below the sysfs root, and the link of the
/// subsystem leads to a name. What fails first is the error.
pub proof fn law_readable_devices_are_events(reads: SysfsReads, root: Seq<Component>)
    ensures
        sysfs_error(reads, root) is None <==> {
            &&& reads.uevent is Ok
            &&& reads.subsystem is Ok
            &&& reads.canonical is Ok
            &&& first_error(sysfs_fields(reads.uevent->Ok_0@)) is None
            &&& exists|below: Seq<Component>|
                components(path_bytes(reads.canonical->Ok_0)) == #[trigger] (root + below)
            &&& final_name(components(path_bytes(reads.subsystem->Ok_0))) is Some
        },
        sysfs_error(reads, root) == Some(ErrorView::NotUnderSysfs) <==> {
            &&& reads.uevent is Ok
            &&& reads.subsystem is Ok
            &&& reads.canonical is Ok
            &&& first_error(sysfs_fields(reads.uevent->Ok_0@)) is None
            &&& forall|below: Seq<Component>|
                components(path_bytes(reads.canonical->Ok_0)) != #[trigger] (root + below)
        },
        sysfs_error(reads, root) == Some(ErrorView::SubsystemNotFound) <==> {
            &&& reads.uevent is Ok
            &&& reads.subsystem is Ok
            &&& reads.canonical is Ok
            &&& first_error(sysfs_fields(reads.uevent->Ok_0@)) is None
            &&& exists|below: Seq<Component>|
                components(path_bytes(reads.canonical->Ok_0)) == #[trigger] (root + below)
            &&& final_name(components(path_bytes(reads.subsystem->Ok_0))) is None
        },
        reads.uevent matches Err(e) ==> sysfs_error(reads, root) == Some(ErrorView::Io(e)),
        reads.uevent is Ok ==> (reads.subsystem matches Err(e) ==> sysfs_error(reads, root) == Some(
            ErrorView::Io(e),
        )),
        reads.uevent is Ok && reads.subsystem is Ok && first_error(
            sysfs_fields(reads.uevent->Ok_0@),
        ) is Some ==> sysfs_error(reads, root) == first_error(sysfs_fields(reads.uevent->Ok_0@)),
        reads.uevent is Ok && reads.subsystem is Ok && first_error(
            sysfs_fields(reads.uevent->Ok_0@),
        ) is None ==> (reads.canonical matches Err(e) ==> sysfs_error(reads, root) == Some(
            ErrorView::Io(e),
        )),
{
    lemma_checked_values(sysfs_fields(reads.uevent->Ok_0@));
    let path = components(path_bytes(reads.canonical->Ok_0));
    if root.is_prefix_of(path) {
        assert(path =~= root + path.skip(root.len() as int));
    }
    assert forall|below: Seq<Component>|
        path == #[trigger] (root + below) implies root.is_prefix_of(path) by {
        assert((root + below).subrange(0, root.len() as int) =~= root);
    }
}

/// Every device that sysfs shows below its root can be read, with the path that it has below the
/// root, and with the last name of its subsystem's path.
pub proof fn law_devices_below_the_root_are_events(
    reads: SysfsReads,
    sysfs_root: Seq<u8>,
    devpath: Seq<u8>,
    dir: Seq<u8>,
    name: Seq<u8>,
)
    requires
        reads.uevent is Ok,
        reads.subsystem is Ok,
        reads.canonical is Ok,
        first_error(sysfs_fields(reads.uevent->Ok_0@)) is None,
        devpath.len() > 0,
        devpath[0] == 47u8,
        path_bytes(reads.canonical->Ok_0) == sysfs_root + devpath,
        !name.contains(47u8),
        name.len() > 0,
        name != seq![46u8],
        name != seq![46u8, 46u8],
        path_bytes(reads.subsystem->Ok_0) == dir + seq![47u8] + name,
    ensures
        sysfs_error(reads, components(sysfs_root)) is None,
        sysfs_devpath(
            components(path_bytes(reads.canonical->Ok_0)),
            components(sysfs_root),
        ) == components(devpath),
        sysfs_subsystem(reads.subsystem->Ok_0) == name,
{
    law_sysfs_devpath_is_the_netlink_devpath(sysfs_root, devpath);
    law_subsystem_is_the_last_name(reads.subsystem->Ok_0, dir, name);
}

} // verus!
