//! Laws of reading and rewriting a message, on the bytes that it is made of.
use crate::header;
use crate::rewrite;
use crate::rewrite_laws;
use crate::scan;
use crate::search;
use crate::text;
use crate::text_laws;
use vstd::prelude::*;
use vstd::utf8;

verus! {

// ---------------------------------------------------------------------------
// Header block and body
// ---------------------------------------------------------------------------

/// A line of `s` starts at `i` and is empty but for its ending, `\n` or `\r\n`.
pub open spec fn is_empty_line_at(s: Seq<u8>, i: int) -> bool {
    &&& 0 <= i < s.len()
    &&& i == 0 || s[i - 1] == 10
    &&& s[i] == 10 || (s[i] == 13 && i + 1 < s.len() && s[i + 1] == 10)
}

/// `s` has no such line.
pub open spec fn has_no_empty_line(s: Seq<u8>) -> bool {
    forall|i: int| !is_empty_line_at(s, i)
}

/// The header block of a message ends at its first empty line, which is neither
/// a part of it nor of the body.
pub proof fn law_where_the_header_ends(lines: Seq<u8>, empty: Seq<u8>, body: Seq<u8>)
    requires
        has_no_empty_line(lines),
        lines.len() == 0 || lines.last() == 10,
        empty == seq![10u8] || empty == seq![13u8, 10u8],
    ensures
        header::header_block(lines + empty + body) == lines,
        header::separator(lines + empty + body) == empty,
        header::body(lines + empty + body) == body,
{
    let raw = lines + empty + body;
    let n = lines.len() as int;
    assert forall|i: int| 0 <= i < n implies !header::blank_line_at(raw, i) by {
        assert(!is_empty_line_at(lines, i));
        assert(raw[i] == lines[i]);
        if i > 0 {
            assert(raw[i - 1] == lines[i - 1]);
        }
        if i + 1 < n {
            assert(raw[i + 1] == lines[i + 1]);
        } else {
            assert(lines[i] == 10);
        }
    }
    assert(raw[n] == empty[0]);
    if empty.len() == 2 {
        assert(raw[n + 1] == empty[1]);
    }
    if n > 0 {
        assert(raw[n - 1] == lines.last());
    }
    assert(header::blank_line_at(raw, n));
    header::lemma_next_blank_line(raw, 0);
    assert(header::next_blank_line(raw, 0) == Some(n));
    assert(header::header_block(raw) =~= lines);
    assert(header::separator(raw) =~= empty);
    assert(header::body(raw) =~= body);
}

/// A message without an empty line is all header.
pub proof fn law_message_without_empty_line(raw: Seq<u8>)
    requires
        has_no_empty_line(raw),
    ensures
        header::header_block(raw) == raw,
        header::separator(raw).len() == 0,
        header::body(raw).len() == 0,
{
    header::lemma_next_blank_line(raw, 0);
    if header::next_blank_line(raw, 0) is Some {
        assert(!is_empty_line_at(raw, header::next_blank_line(raw, 0)->0));
    }
    assert(header::header_block(raw) =~= raw);
}

// ---------------------------------------------------------------------------
// Fields
// ---------------------------------------------------------------------------

/// One field: each line of it but the first starts with a space or a tab.
pub open spec fn is_folded_field(f: Seq<u8>) -> bool {
    &&& f.len() > 0
    &&& forall|j: int|
        0 < j < f.len() && f[j - 1] == 10 ==> #[trigger] f[j] == 32 || f[j] == 9
}

/// Fields that are put together come apart again: each but the last ends its
/// line, and none but the first starts with a space or a tab.
pub proof fn law_fields_come_apart(fields: Seq<Seq<u8>>)
    requires
        forall|i: int| 0 <= i < fields.len() ==> is_folded_field(#[trigger] fields[i]),
        forall|i: int| 0 <= i < fields.len() - 1 ==> (#[trigger] fields[i]).last() == 10,
        forall|i: int|
            0 < i < fields.len() ==> (#[trigger] fields[i])[0] != 32 && fields[i][0] != 9,
    ensures
        header::split_fields(header::concat(fields)) == fields,
    decreases fields.len(),
{
    let s = header::concat(fields);
    if fields.len() == 0 {
        assert(header::split_fields(s) =~= fields);
    } else {
        let first = fields[0];
        let tail = fields.drop_first();
        assert forall|i: int| 0 <= i < tail.len() implies is_folded_field(#[trigger] tail[i]) by {
            assert(tail[i] == fields[i + 1]);
        }
        assert forall|i: int| 0 <= i < tail.len() - 1 implies (#[trigger] tail[i]).last() == 10 by {
            assert(tail[i] == fields[i + 1]);
        }
        assert forall|i: int| 0 < i < tail.len() implies (#[trigger] tail[i])[0] != 32
            && tail[i][0] != 9 by {
            assert(tail[i] == fields[i + 1]);
        }
        law_fields_come_apart(tail);
        header::lemma_concat_first(fields);
        let rest = header::concat(tail);
        assert(s == first + rest);
        assert(is_folded_field(first));
        let n = first.len() as int;
        header::lemma_next_field_end(s, 1);
        assert forall|j: int| 1 <= j < n implies !header::field_ends_at(s, j) by {
            assert(s[j - 1] == first[j - 1]);
            assert(s[j] == first[j]);
        }
        assert(header::field_ends_at(s, n)) by {
            if tail.len() > 0 {
                header::lemma_concat_first(tail);
                assert(tail[0] == fields[1]);
                assert(is_folded_field(fields[1]));
                assert(rest[0] == tail[0][0]);
                assert(s[n] == rest[0]);
                assert(s[n - 1] == first.last());
            } else {
                assert(rest.len() == 0);
            }
        }
        assert(header::field_len(s) == n);
        assert(s.take(n) =~= first);
        assert(s.skip(n) =~= rest);
        assert(header::split_fields(s) =~= fields);
    }
}

/// The name of a field is what stands before its first colon, in lower case and
/// without white space around, if that colon is on its first line.
pub proof fn law_names_of_fields(name: Seq<char>, rest: Seq<u8>)
    requires
        !name.contains(':'),
        !name.contains('\n'),
    ensures
        header::field_name(utf8::encode_utf8(name) + seq![58u8] + rest) == text::ascii_lower(
            text::trimmed(name),
        ),
{
    rewrite_laws::lemma_encoded_ascii_byte(name, 58);
    rewrite_laws::lemma_encoded_ascii_byte(name, 10);
    rewrite_laws::lemma_field_name(name, rest);
}

/// The name of a field is the text before its first colon also where that is not
/// UTF-8: each such name holds a replacement character, and so is none that is
/// spelled out in ASCII.
pub proof fn law_names_of_any_bytes(bytes: Seq<u8>, rest: Seq<u8>)
    requires
        !bytes.contains(58),
        !bytes.contains(10),
    ensures
        ({
            let name = header::field_name(bytes + seq![58u8] + rest);
            if utf8::valid_utf8(bytes) {
                name == text::ascii_lower(text::trimmed(utf8::decode_utf8(bytes)))
            } else {
                let (before, after) = header::lossy_parts(bytes);
                &&& name == text::ascii_lower(text::trimmed(before + seq!['\u{fffd}'] + after))
                &&& name.contains('\u{fffd}')
            }
        }),
{
    let field = bytes + seq![58u8] + rest;
    let colon = bytes.len() as int;
    assert forall|j: int| 0 <= j < colon implies field[j] != 58 && field[j] != 10 by {
        assert(field[j] == bytes[j]);
        assert(bytes.contains(bytes[j]));
    }
    assert(field[colon] == 58);
    search::lemma_next_index(field, 10u8, 0);
    let line = field.take(header::line_end(field, 0));
    assert(colon < line.len());
    assert forall|j: int| 0 <= j < colon implies line[j] != 58 by {
        assert(line[j] == field[j]);
    }
    search::lemma_next_index_is(line, 58u8, 0, colon);
    assert(field.take(colon) =~= bytes);
    if !utf8::valid_utf8(bytes) {
        rewrite_laws::lemma_lossy_name(bytes);
    }
}

/// A field whose first line has no colon has no name.
pub proof fn law_field_without_a_name(line: Seq<u8>, rest: Seq<u8>)
    requires
        !line.contains(58),
        !line.contains(10),
        rest.len() == 0 || rest[0] == 10,
    ensures
        header::field_name(line + rest).len() == 0,
{
    let field = line + rest;
    let n = line.len() as int;
    assert forall|j: int| 0 <= j < n implies field[j] != 58 && field[j] != 10 by {
        assert(field[j] == line[j]);
        assert(line.contains(line[j]));
    }
    search::lemma_next_index(field, 10u8, 0);
    if rest.len() > 0 {
        assert(field[n] == 10);
        search::lemma_next_index_is(field, 10u8, 0, n);
    } else {
        search::lemma_next_index_none(field, 10u8, 0);
    }
    let first = field.take(header::line_end(field, 0));
    assert forall|j: int| 0 <= j < first.len() implies first[j] != 58 by {
        assert(first[j] == field[j]);
    }
    search::lemma_next_index_none(first, 58u8, 0);
}

/// A message has a `From` exactly when a field of its header has that name.
pub proof fn law_messages_with_a_from(raw: Seq<u8>)
    ensures
        rewrite::has_from(raw) <==> exists|i: int|
            0 <= i < rewrite_laws::fields_of(raw).len() && header::field_name(
                #[trigger] rewrite_laws::fields_of(raw)[i],
            ) == "from"@,
{
    let fields = rewrite_laws::fields_of(raw);
    let names = rewrite::field_names(fields);
    if rewrite::has_from(raw) {
        let i = choose|i: int| 0 <= i < names.len() && names[i] == "from"@;
        assert(header::field_name(fields[i]) == "from"@);
    }
    if exists|i: int|
        0 <= i < fields.len() && header::field_name(#[trigger] fields[i]) == "from"@ {
        let i = choose|i: int|
            0 <= i < fields.len() && header::field_name(#[trigger] fields[i]) == "from"@;
        assert(names[i] == "from"@);
    }
}

/// A field as it is written: a name, a colon and the rest. The name starts with
/// no space or tab and holds no colon and no line feed; the rest ends the line,
/// and its further lines start with a space or a tab.
pub open spec fn is_written_as(f: Seq<u8>, name: Seq<char>, rest: Seq<u8>) -> bool {
    &&& f == utf8::encode_utf8(name) + seq![58u8] + rest
    &&& name.len() > 0
    &&& !name.contains(':')
    &&& !name.contains('\n')
    &&& f[0] != 32 && f[0] != 9
    &&& rest.len() > 0
    &&& rest.last() == 10
    &&& forall|j: int|
        0 < j < rest.len() && rest[j - 1] == 10 ==> #[trigger] rest[j] == 32 || rest[j] == 9
}

/// A message is read as it is written: field by field, each under its name, then
/// an empty line and the body.
pub proof fn law_a_message_is_read_as_it_is_written(
    fields: Seq<Seq<u8>>,
    names: Seq<Seq<char>>,
    rests: Seq<Seq<u8>>,
    empty: Seq<u8>,
    body: Seq<u8>,
)
    requires
        names.len() == fields.len(),
        rests.len() == fields.len(),
        forall|i: int|
            0 <= i < fields.len() ==> is_written_as(#[trigger] fields[i], names[i], rests[i]),
        empty == seq![10u8] || empty == seq![13u8, 10u8],
    ensures
        ({
            let raw = header::concat(fields) + empty + body;
            &&& header::header_block(raw) == header::concat(fields)
            &&& rewrite_laws::fields_of(raw) == fields
            &&& header::separator(raw) == empty
            &&& header::body(raw) == body
            &&& forall|i: int|
                0 <= i < fields.len() ==> header::field_name(#[trigger] fields[i])
                    == text::ascii_lower(text::trimmed(names[i])) && rewrite::field_value(fields[i])
                    == rests[i]
        }),
{
    assert forall|i: int| 0 <= i < fields.len() implies is_folded_field(#[trigger] fields[i])
        && fields[i].last() == 10 && fields[i][0] != 32 && fields[i][0] != 9 && has_no_empty_line(
        fields[i],
    ) && header::field_name(fields[i]) == text::ascii_lower(text::trimmed(names[i]))
        && rewrite::field_value(fields[i]) == rests[i] by {
        lemma_written_field(fields[i], names[i], rests[i]);
    }
    law_fields_come_apart(fields);
    lemma_concat_has_no_empty_line(fields);
    law_where_the_header_ends(header::concat(fields), empty, body);
}

proof fn lemma_written_field(f: Seq<u8>, name: Seq<char>, rest: Seq<u8>)
    requires
        is_written_as(f, name, rest),
    ensures
        is_folded_field(f),
        f.last() == 10,
        has_no_empty_line(f),
        header::field_name(f) == text::ascii_lower(text::trimmed(name)),
        rewrite::field_value(f) == rest,
{
    let start = utf8::encode_utf8(name);
    let n = start.len() as int;
    rewrite_laws::lemma_encoded_ascii_byte(name, 58);
    rewrite_laws::lemma_encoded_ascii_byte(name, 10);
    law_names_of_fields(name, rest);
    rewrite_laws::lemma_field_value(start, rest);
    assert(n > 0) by {
        utf8::encode_utf8_decode_utf8(name);
        if n == 0 {
            assert(start =~= Seq::<u8>::empty());
            assert(utf8::decode_utf8(Seq::<u8>::empty()) =~= Seq::<char>::empty());
        }
    }
    assert forall|j: int| 0 <= j < n implies f[j] != 10 by {
        assert(f[j] == start[j]);
        assert(start.contains(start[j]));
    }
    assert(f[n] == 58);
    assert forall|j: int| n < j < f.len() implies f[j] == rest[j - n - 1] by {}
    assert(f.last() == rest.last());
    assert forall|j: int| 0 < j < f.len() && f[j - 1] == 10 implies #[trigger] f[j] == 32 || f[j]
        == 9 by {
        assert(j - 1 > n);
        assert(rest[j - n - 1] == f[j]);
        assert(rest[j - n - 2] == f[j - 1]);
    }
    assert forall|i: int| !is_empty_line_at(f, i) by {
        if i == 0 {
            if n > 1 {
                assert(f[1] != 10);
            } else {
                assert(f[1] == 58);
            }
        } else if 0 < i < f.len() && f[i - 1] == 10 {
            assert(f[i] == 32 || f[i] == 9);
        }
    }
}

proof fn lemma_concat_has_no_empty_line(fields: Seq<Seq<u8>>)
    requires
        forall|i: int|
            0 <= i < fields.len() ==> (#[trigger] fields[i]).len() > 0 && fields[i].last() == 10
                && has_no_empty_line(fields[i]),
    ensures
        has_no_empty_line(header::concat(fields)),
        header::concat(fields).len() == 0 || header::concat(fields).last() == 10,
    decreases fields.len(),
{
    if fields.len() > 0 {
        let init = fields.drop_last();
        let last = fields.last();
        assert(last == fields[fields.len() - 1]);
        assert forall|i: int| 0 <= i < init.len() implies (#[trigger] init[i]).len() > 0
            && init[i].last() == 10 && has_no_empty_line(init[i]) by {
            assert(init[i] == fields[i]);
        }
        lemma_concat_has_no_empty_line(init);
        let a = header::concat(init);
        let s = header::concat(fields);
        assert(s == a + last);
        assert(s.last() == last.last());
        let n = a.len() as int;
        assert forall|i: int| !is_empty_line_at(s, i) by {
            if i < 0 || i >= s.len() {
            } else if i < n {
                assert(!is_empty_line_at(a, i));
                assert(s[i] == a[i]);
                if i > 0 {
                    assert(s[i - 1] == a[i - 1]);
                }
                if i + 1 < n {
                    assert(s[i + 1] == a[i + 1]);
                } else {
                    assert(a[i] == 10);
                }
            } else {
                let k = i - n;
                assert(!is_empty_line_at(last, k));
                assert(s[i] == last[k]);
                if k > 0 {
                    assert(s[i - 1] == last[k - 1]);
                }
                if k + 1 < last.len() {
                    assert(s[i + 1] == last[k + 1]);
                }
            }
        }
    }
}

// ---------------------------------------------------------------------------
// Values and synthesized fields
// ---------------------------------------------------------------------------

/// The value of a field is what follows its first colon.
pub proof fn law_values_of_fields(start: Seq<u8>, rest: Seq<u8>)
    requires
        !start.contains(58),
    ensures
        rewrite::field_value(start + seq![58u8] + rest) == rest,
        rewrite::field_value(start) == start,
{
    rewrite_laws::lemma_field_value(start, rest);
    search::lemma_next_index(start, 58u8, 0);
    if search::first_index(start, 58u8) is Some {
        assert(start.contains(start[search::first_index(start, 58u8)->0]));
    }
}

/// Unfolding keeps text, drops a line ending, and makes a line ending and the
/// spaces and tabs behind it one space.
pub proof fn law_what_unfolding_does(
    line: Seq<u8>,
    ending: Seq<u8>,
    blanks: Seq<u8>,
    rest: Seq<u8>,
)
    requires
        !line.contains(10),
        !line.contains(13),
        ending == seq![10u8] || ending == seq![13u8] || ending == seq![13u8, 10u8],
        forall|i: int| 0 <= i < blanks.len() ==> #[trigger] blanks[i] == 32 || blanks[i] == 9,
        rest.len() > 0 ==> rest[0] != 32 && rest[0] != 9,
        ending == seq![13u8] && blanks.len() == 0 && rest.len() > 0 ==> rest[0] != 10,
    ensures
        rewrite::unfolded(line) == line,
        rewrite::unfolded(line + ending + blanks + rest) == line + (if blanks.len() > 0 {
            seq![32u8]
        } else {
            Seq::empty()
        }) + rewrite::unfolded(rest),
{
    let tail = ending + blanks + rest;
    let behind = blanks + rest;
    lemma_unfolded_one_line(line);
    assert(line + ending + blanks + rest =~= line + tail);
    rewrite_laws::lemma_unfolded_after(line, tail);
    let n = ending.len() as int;
    assert(tail[0] == ending[0]);
    if tail.len() > 1 && n == 1 {
        assert(tail[1] == behind[0]);
        if blanks.len() > 0 {
            assert(behind[0] == blanks[0]);
        } else {
            assert(behind[0] == rest[0]);
        }
    }
    assert(rewrite::terminator_len(tail) == n);
    assert(tail.skip(n) =~= behind);
    lemma_run_of_blanks(blanks, rest);
    assert(behind.skip(blanks.len() as int) =~= rest);
    if blanks.len() == 0 {
        assert(behind =~= rest);
    }
    assert(rewrite::unfolded(line + tail) =~= line + (if blanks.len() > 0 {
        seq![32u8]
    } else {
        Seq::empty()
    }) + rewrite::unfolded(rest));
}

proof fn lemma_unfolded_one_line(line: Seq<u8>)
    requires
        !line.contains(10),
        !line.contains(13),
    ensures
        rewrite::unfolded(line) == line,
{
    rewrite_laws::lemma_unfolded_after(line, Seq::empty());
    assert(line + Seq::<u8>::empty() =~= line);
    assert(rewrite::unfolded(Seq::<u8>::empty()) =~= Seq::<u8>::empty());
    assert(line + rewrite::unfolded(Seq::<u8>::empty()) =~= line);
}

/// Unfolding what is unfolded changes nothing, and a value has the display name
/// that it has on one line.
pub proof fn law_unfolded_values(value: Seq<u8>)
    ensures
        rewrite::unfolded(rewrite::unfolded(value)) == rewrite::unfolded(value),
        rewrite::display_name(rewrite::unfolded(value)) == rewrite::display_name(value),
{
    rewrite_laws::law_unfolded_is_one_line(value);
    lemma_unfolded_one_line(rewrite::unfolded(value));
}

proof fn lemma_run_of_blanks(blanks: Seq<u8>, rest: Seq<u8>)
    requires
        forall|i: int| 0 <= i < blanks.len() ==> #[trigger] blanks[i] == 32 || blanks[i] == 9,
        rest.len() > 0 ==> rest[0] != 32 && rest[0] != 9,
    ensures
        scan::blank_run(blanks + rest) == blanks.len(),
    decreases blanks.len(),
{
    let s = blanks + rest;
    if blanks.len() == 0 {
        assert(s =~= rest);
    } else {
        let tail = blanks.drop_first();
        assert(blanks[0] == 32 || blanks[0] == 9);
        assert forall|i: int| 0 <= i < tail.len() implies #[trigger] tail[i] == 32 || tail[i] == 9 by {
            assert(tail[i] == blanks[i + 1]);
        }
        lemma_run_of_blanks(tail, rest);
        assert(s.drop_first() =~= tail + rest);
    }
}

/// The line ending of a header is that of its first line, and `\n` where that has
/// none.
pub proof fn law_which_line_ending(line: Seq<u8>, rest: Seq<u8>)
    requires
        !line.contains(10),
    ensures
        rewrite::line_ending(line) == seq![10u8],
        rewrite::line_ending(line + seq![13u8, 10u8] + rest) == seq![13u8, 10u8],
        line.len() == 0 || line.last() != 13 ==> rewrite::line_ending(line + seq![10u8] + rest)
            == seq![10u8],
{
    let n = line.len() as int;
    search::lemma_next_index(line, 10u8, 0);
    if search::first_index(line, 10u8) is Some {
        assert(line.contains(line[search::first_index(line, 10u8)->0]));
    }
    let crlf = line + seq![13u8, 10u8] + rest;
    assert forall|j: int| 0 <= j < n + 1 implies crlf[j] != 10 by {
        if j < n {
            assert(crlf[j] == line[j]);
            assert(line.contains(line[j]));
        }
    }
    assert(crlf[n + 1] == 10 && crlf[n] == 13);
    search::lemma_next_index_is(crlf, 10u8, 0, n + 1);
    let lf = line + seq![10u8] + rest;
    assert forall|j: int| 0 <= j < n implies lf[j] != 10 by {
        assert(lf[j] == line[j]);
        assert(line.contains(line[j]));
    }
    assert(lf[n] == 10);
    search::lemma_next_index_is(lf, 10u8, 0, n);
    if n > 0 {
        assert(lf[n - 1] == line.last());
    }
}

/// The display name of `name <address>` is the name, whatever white space is
/// around it and whatever follows the bracket. A value without a bracket, or
/// with nothing but white space before it, has none.
pub proof fn law_which_display_name(
    before: Seq<u8>,
    name: Seq<u8>,
    after: Seq<u8>,
    address: Seq<u8>,
)
    requires
        forall|i: int|
            0 <= i < before.len() ==> #[trigger] before[i] == 32 || before[i] == 9 || before[i]
                == 12,
        forall|i: int|
            0 <= i < after.len() ==> #[trigger] after[i] == 32 || after[i] == 9 || after[i] == 12,
        !name.contains(10),
        !name.contains(13),
        !name.contains(60),
        name.len() > 0 ==> !text_laws::is_one_of_five(name[0]) && !text_laws::is_one_of_five(
            name.last(),
        ),
    ensures
        rewrite::display_name(before + name + after + seq![60u8] + address) == name,
        rewrite::display_name(before + name + after).len() == 0,
{
    let head = before + name + after;
    let line = head + seq![60u8];
    assert forall|i: int| 0 <= i < head.len() implies head[i] != 10 && head[i] != 13 && head[i]
        != 60 by {
        if i < before.len() {
            assert(head[i] == before[i]);
        } else if i < before.len() + name.len() {
            assert(head[i] == name[i - before.len()]);
            assert(name.contains(name[i - before.len()]));
        } else {
            assert(head[i] == after[i - before.len() - name.len()]);
        }
    }
    assert(!head.contains(60));
    rewrite_laws::lemma_no_display_name(head);
    assert forall|i: int| 0 <= i < line.len() implies line[i] != 10 && line[i] != 13 by {
        if i < head.len() {
            assert(line[i] == head[i]);
        }
    }
    rewrite_laws::lemma_unfolded_after(line, address);
    let whole = line + rewrite::unfolded(address);
    assert(head + seq![60u8] + address =~= line + address);
    // Trimming takes at most what stands before the name, and all of it.
    let start = if name.len() > 0 {
        name + after
    } else {
        Seq::<u8>::empty()
    };
    let from = start + seq![60u8] + rewrite::unfolded(address);
    lemma_trim_start_blanks(
        if name.len() > 0 {
            before
        } else {
            before + after
        },
        from,
    );
    if name.len() > 0 {
        assert(whole =~= before + from);
        assert(from[0] == name[0]);
    } else {
        assert(name =~= Seq::<u8>::empty());
        assert(whole =~= (before + after) + from);
        assert(from[0] == 60);
    }
    assert(scan::trim_ascii_start(whole) == from);
    let at = start.len() as int;
    assert(from[at] == 60);
    rewrite_laws::lemma_trim_ascii_end_keeps(from, at);
    let trimmed = scan::trimmed_ascii(whole);
    assert forall|i: int| 0 <= i < at implies trimmed[i] != 60 by {
        assert(trimmed[i] == from[i]);
        assert(from[i] == start[i]);
        if i < name.len() {
            assert(start[i] == name[i]);
            assert(name.contains(name[i]));
        } else {
            assert(start[i] == after[i - name.len()]);
        }
    }
    assert(trimmed[at] == 60);
    search::lemma_next_index_is(trimmed, 60u8, 0, at);
    assert(trimmed.take(at) =~= start);
    if name.len() > 0 {
        assert forall|i: int| 0 <= i < after.len() implies text_laws::is_one_of_five(
            #[trigger] after[i],
        ) by {}
        text_laws::law_trimming_bytes_takes_what_surrounds(Seq::empty(), name, after);
        assert(Seq::<u8>::empty() + name + after =~= start);
    } else {
        assert(scan::trimmed_ascii(start) =~= Seq::<u8>::empty());
    }
}

proof fn lemma_trim_start_blanks(blanks: Seq<u8>, rest: Seq<u8>)
    requires
        forall|i: int|
            0 <= i < blanks.len() ==> #[trigger] blanks[i] == 32 || blanks[i] == 9 || blanks[i]
                == 12,
        rest.len() > 0,
        !text_laws::is_one_of_five(rest[0]),
    ensures
        scan::trim_ascii_start(blanks + rest) == rest,
    decreases blanks.len(),
{
    let s = blanks + rest;
    if blanks.len() == 0 {
        assert(s =~= rest);
    } else {
        let tail = blanks.drop_first();
        assert(blanks[0] == 32 || blanks[0] == 9 || blanks[0] == 12);
        assert forall|i: int| 0 <= i < tail.len() implies #[trigger] tail[i] == 32 || tail[i] == 9
            || tail[i] == 12 by {
            assert(tail[i] == blanks[i + 1]);
        }
        lemma_trim_start_blanks(tail, rest);
        assert(s.drop_first() =~= tail + rest);
    }
}

/// The bytes of `From: `.
pub open spec fn from_bytes() -> Seq<u8> {
    seq![70u8, 114, 111, 109, 58, 32]
}

/// The bytes of `Reply-To:`.
pub open spec fn reply_to_bytes() -> Seq<u8> {
    seq![82u8, 101, 112, 108, 121, 45, 84, 111, 58]
}

/// The rewritten `From` is `From: name <sender>` with the display name of the
/// value it replaces, and `From: sender` where that has none.
pub proof fn law_the_rewritten_from(value: Seq<u8>, from_email: Seq<char>, ending: Seq<u8>)
    ensures
        ({
            let name = rewrite::display_name(value);
            let sender = utf8::encode_utf8(from_email);
            rewrite::rewritten_from(value, from_email, ending) == if name.len() > 0 {
                from_bytes() + name + seq![32u8, 60u8] + sender + seq![62u8] + ending
            } else {
                from_bytes() + sender + ending
            }
        }),
{
    rewrite_laws::lemma_from_bytes();
    assert(utf8::encode_utf8("From: "@) =~= from_bytes());
}

/// The `Reply-To` that is added is `Reply-To:` and the value of the `From` on one
/// line.
pub proof fn law_the_added_reply_to(value: Seq<u8>, ending: Seq<u8>)
    ensures
        rewrite::reply_to_field(value, ending) == reply_to_bytes() + rewrite::unfolded(value)
            + ending,
{
    rewrite_laws::lemma_reply_to_bytes();
    assert(utf8::encode_utf8("Reply-To:"@) =~= reply_to_bytes());
}

/// A prefix goes between the spaces and tabs behind the colon and the text.
pub proof fn law_where_the_prefix_goes(
    start: Seq<u8>,
    blanks: Seq<u8>,
    text: Seq<u8>,
    prefix: Seq<char>,
)
    requires
        !start.contains(58),
        forall|i: int| 0 <= i < blanks.len() ==> #[trigger] blanks[i] == 32 || blanks[i] == 9,
        text.len() > 0 ==> text[0] != 32 && text[0] != 9,
    ensures
        rewrite::prefixed_subject(start + seq![58u8] + blanks + text, prefix) == start + seq![58u8]
            + blanks + utf8::encode_utf8(prefix) + text,
        rewrite::prefixed_subject(start, prefix) == start,
{
    search::lemma_next_index(start, 58u8, 0);
    if search::first_index(start, 58u8) is Some {
        assert(start.contains(start[search::first_index(start, 58u8)->0]));
    }
    let field = start + seq![58u8] + blanks + text;
    let n = start.len() as int;
    assert forall|j: int| 0 <= j < n implies field[j] != 58 by {
        assert(field[j] == start[j]);
        assert(start.contains(start[j]));
    }
    assert(field[n] == 58);
    search::lemma_next_index_is(field, 58u8, 0, n);
    assert(field.skip(n + 1) =~= blanks + text);
    lemma_run_of_blanks(blanks, text);
    let at = n + 1 + blanks.len();
    assert(field.take(at as int) =~= start + seq![58u8] + blanks);
    assert(field.skip(at as int) =~= text);
    assert(rewrite::prefixed_subject(field, prefix) =~= start + seq![58u8] + blanks
        + utf8::encode_utf8(prefix) + text);
}

/// What goes between a header and a field behind it: nothing where the header is
/// empty or ends its last line, otherwise the ending of the header, which makes
/// no empty line.
pub proof fn law_what_ends_the_last_line(lines: Seq<u8>, ending: Seq<u8>)
    requires
        ending == seq![10u8] || ending == seq![13u8, 10u8],
    ensures
        ({
            let added = rewrite::line_break(lines, ending);
            &&& lines.len() == 0 || lines.last() == 10 ==> added.len() == 0
            &&& lines.len() > 0 && lines.last() != 10 && lines.last() != 13 ==> added == ending
            &&& lines.len() > 0 && lines.last() == 13 && (lines.len() == 1 || lines[lines.len() - 2]
                == 10) ==> added == seq![13u8, 10u8]
            &&& lines.len() > 1 && lines.last() == 13 && lines[lines.len() - 2] != 10 ==> added
                == ending
        }),
{
    let all = lines + ending;
    let n = lines.len() as int;
    if n > 0 {
        assert(all[n - 1] == lines.last());
        assert(all[n] == ending[0]);
        if n > 1 {
            assert(all[n - 2] == lines[n - 2]);
        }
    }
}

// ---------------------------------------------------------------------------
// What stays and what goes
// ---------------------------------------------------------------------------

/// One of the four names whose fields are left out.
pub open spec fn is_one_of_four(name: Seq<char>) -> bool {
    name == "return-path"@ || name == "sender"@ || name == "message-id"@ || name
        == "dkim-signature"@
}

/// An earlier field of the same name as the one at `i`.
pub open spec fn comes_after_its_like(fields: Seq<Seq<u8>>, i: int) -> bool {
    exists|j: int|
        0 <= j < i && header::field_name(#[trigger] fields[j]) == header::field_name(fields[i])
}

/// A field is left out exactly when its name is `Return-Path`, `Sender`,
/// `Message-ID` or `DKIM-Signature`, or it is a `From` after the first. The first
/// `From` is rewritten and the first `Subject` takes the prefix, if there is one.
/// Every other field stays as it is, byte for byte.
pub proof fn law_which_fields_stay(
    raw: Seq<u8>,
    from_email: Seq<char>,
    prefix: Option<Seq<char>>,
    i: int,
)
    requires
        0 <= i < rewrite_laws::fields_of(raw).len(),
    ensures
        ({
            let fields = rewrite_laws::fields_of(raw);
            let name = header::field_name(fields[i]);
            let ending = rewrite::line_ending(header::header_block(raw));
            let part = rewrite::rewritten_fields(fields, from_email, prefix, ending)[i];
            let repeated = comes_after_its_like(fields, i);
            &&& part.len() == 0 <==> is_one_of_four(name) || (name == "from"@ && repeated)
            &&& name == "from"@ && !repeated ==> part == rewrite::rewritten_from(
                rewrite::field_value(fields[i]),
                from_email,
                ending,
            )
            &&& name == "subject"@ && prefix is Some && !repeated ==> part
                == rewrite::prefixed_subject(fields[i], prefix->0)
            &&& !is_one_of_four(name) && name != "from"@ && !(name == "subject"@ && prefix is Some
                && !repeated) ==> part == fields[i]
        }),
{
    let fields = rewrite_laws::fields_of(raw);
    let names = rewrite::field_names(fields);
    let ending = rewrite::line_ending(header::header_block(raw));
    rewrite::lemma_header_names_differ();
    rewrite_laws::lemma_header_has_no_blank_line(raw);
    rewrite_laws::lemma_fields_sound(header::header_block(raw));
    assert(rewrite_laws::sound_field(fields[i]));
    assert(names[i] == header::field_name(fields[i]));
    lemma_first_of_name(fields, i);
    law_the_rewritten_from(rewrite::field_value(fields[i]), from_email, ending);
    lemma_prefixed_is_longer(fields[i], if prefix is Some {
        prefix->0
    } else {
        Seq::empty()
    });
}

proof fn lemma_first_of_name(fields: Seq<Seq<u8>>, i: int)
    requires
        0 <= i < fields.len(),
    ensures
        ({
            let names = rewrite::field_names(fields);
            (search::first_index(names, names[i]) == Some(i)) <==> !comes_after_its_like(fields, i)
        }),
{
    let names = rewrite::field_names(fields);
    search::lemma_next_index(names, names[i], 0);
    if comes_after_its_like(fields, i) {
        let j = choose|j: int|
            0 <= j < i && header::field_name(#[trigger] fields[j]) == header::field_name(
                fields[i],
            );
        assert(names[j] == names[i]);
    } else {
        assert forall|j: int| 0 <= j < i implies names[j] != names[i] by {
            assert(header::field_name(fields[j]) != header::field_name(fields[i]));
        }
        search::lemma_next_index_is(names, names[i], 0, i);
    }
}

proof fn lemma_prefixed_is_longer(field: Seq<u8>, prefix: Seq<char>)
    ensures
        rewrite::prefixed_subject(field, prefix).len() >= field.len(),
{
    search::lemma_next_index(field, 58u8, 0);
    if search::first_index(field, 58u8) is Some {
        let colon = search::first_index(field, 58u8)->0;
        scan::lemma_blank_run(field.skip(colon + 1));
    }
}

/// A `Reply-To` is added exactly when there is a `From`, none is there already,
/// and the value of the first `From` is more than white space.
pub proof fn law_when_a_reply_to_is_added(fields: Seq<Seq<u8>>, ending: Seq<u8>, i: int)
    requires
        0 <= i < fields.len(),
        header::field_name(fields[i]) == "from"@,
        !comes_after_its_like(fields, i),
    ensures
        ({
            let added = rewrite::added_reply_to(fields, ending);
            let value = rewrite::field_value(fields[i]);
            &&& added is Some <==> (forall|j: int|
                0 <= j < fields.len() ==> header::field_name(#[trigger] fields[j])
                    != "reply-to"@) && scan::trimmed_ascii(rewrite::unfolded(value)).len() > 0
            &&& added is Some ==> added->0 == rewrite::reply_to_field(value, ending)
        }),
{
    let names = rewrite::field_names(fields);
    lemma_first_of_name(fields, i);
    assert(names[i] == "from"@);
    if names.contains("reply-to"@) {
        let j = choose|j: int| 0 <= j < names.len() && names[j] == "reply-to"@;
        assert(header::field_name(fields[j]) == "reply-to"@);
    } else {
        assert forall|j: int| 0 <= j < fields.len() implies header::field_name(
            #[trigger] fields[j],
        ) != "reply-to"@ by {
            if header::field_name(fields[j]) == "reply-to"@ {
                assert(names[j] == "reply-to"@);
            }
        }
    }
}

/// Without a `From` no `Reply-To` is added.
pub proof fn law_no_reply_to_without_a_from(fields: Seq<Seq<u8>>, ending: Seq<u8>)
    requires
        forall|j: int|
            0 <= j < fields.len() ==> header::field_name(#[trigger] fields[j]) != "from"@,
    ensures
        rewrite::added_reply_to(fields, ending) is None,
{
    let names = rewrite::field_names(fields);
    search::lemma_next_index(names, "from"@, 0);
    if search::first_index(names, "from"@) is Some {
        let i = search::first_index(names, "from"@)->0;
        assert(header::field_name(fields[i]) == "from"@);
    }
}

/// The fields of a message that have one of the given names come out of the
/// rewriting as they were, byte for byte and in the same order, whatever the
/// names: all but `From`, `Return-Path`, `Sender`, `Message-ID`,
/// `DKIM-Signature`, a `Subject` that takes a prefix, and a `Reply-To` that is
/// added. The header ends its last line, as it does wherever an empty line
/// follows it.
pub proof fn law_fields_of_other_names_come_out(
    raw: Seq<u8>,
    from_email: Seq<char>,
    prefix: Option<Seq<char>>,
    names: Set<Seq<char>>,
)
    requires
        rewrite_laws::no_line_feed(from_email, prefix),
        header::header_block(raw).len() > 0 ==> header::header_block(raw).last() == 10,
        !names.contains("from"@),
        !names.contains("return-path"@),
        !names.contains("sender"@),
        !names.contains("message-id"@),
        !names.contains("dkim-signature"@),
        prefix is Some ==> !names.contains("subject"@),
        names.contains("reply-to"@) ==> exists|i: int|
            0 <= i < rewrite_laws::fields_of(raw).len() && header::field_name(
                #[trigger] rewrite_laws::fields_of(raw)[i],
            ) == "reply-to"@,
    ensures
        ({
            let after = rewrite_laws::fields_of(rewrite::rewritten(raw, from_email, prefix));
            let named = |f: Seq<u8>| names.contains(header::field_name(f));
            after.filter(named) == rewrite_laws::fields_of(raw).filter(named)
        }),
{
    let block = header::header_block(raw);
    let fields = rewrite_laws::fields_of(raw);
    let ending = rewrite::line_ending(block);
    let parts = rewrite::rewritten_fields(fields, from_email, prefix, ending);
    let kept = rewrite_laws::nonempty(parts);
    let named = |f: Seq<u8>| names.contains(header::field_name(f));
    let after = rewrite_laws::fields_of(rewrite::rewritten(raw, from_email, prefix));
    rewrite_laws::law_rewritten_message_reads_back(raw, from_email, prefix);
    rewrite_laws::lemma_header_has_no_blank_line(raw);
    rewrite_laws::lemma_fields_sound(block);
    rewrite_laws::lemma_line_ending(block);
    assert forall|i: int| 0 <= i < fields.len() implies (named(#[trigger] fields[i]) ==> parts[i]
        == fields[i] && parts[i].len() > 0) && (!named(fields[i]) ==> parts[i].len() == 0
        || !named(parts[i])) by {
        assert(rewrite_laws::sound_field(fields[i]));
        law_which_fields_stay(raw, from_email, prefix, i);
        rewrite_laws::lemma_rewritten_field(raw, i, from_email, prefix);
        assert(rewrite::field_names(fields)[i] == header::field_name(fields[i]));
    }
    lemma_filter_of_kept(fields, parts, named);
    match rewrite::added_reply_to(fields, ending) {
        Some(field) => {
            let all_names = rewrite::field_names(fields);
            let from = search::first_index(all_names, "from"@)->0;
            rewrite_laws::lemma_reply_to_field(rewrite::field_value(fields[from]), ending);
            if names.contains("reply-to"@) {
                let i = choose|i: int|
                    0 <= i < fields.len() && header::field_name(#[trigger] fields[i])
                        == "reply-to"@;
                assert(all_names[i] == "reply-to"@);
            }
            // Every line has its ending already.
            assert(rewrite_laws::with_last_line_ended(kept, ending) =~= kept) by {
                if kept.len() > 0 {
                    let i = rewrite_laws::lemma_nonempty_source(parts, kept.len() - 1);
                    rewrite_laws::lemma_rewritten_field(raw, i, from_email, prefix);
                    assert(kept.last() + rewrite::line_break(kept.last(), ending) =~= kept.last());
                }
            }
            reveal(Seq::filter);
            assert(after.drop_last() =~= kept);
            assert(after.last() == field);
        },
        None => {},
    }
}

proof fn lemma_filter_of_kept(
    fields: Seq<Seq<u8>>,
    parts: Seq<Seq<u8>>,
    named: spec_fn(Seq<u8>) -> bool,
)
    requires
        fields.len() == parts.len(),
        forall|i: int|
            0 <= i < fields.len() ==> (named(#[trigger] fields[i]) ==> parts[i] == fields[i]
                && parts[i].len() > 0) && (!named(fields[i]) ==> parts[i].len() == 0 || !named(
                parts[i],
            )),
    ensures
        rewrite_laws::nonempty(parts).filter(named) == fields.filter(named),
    decreases fields.len(),
{
    reveal(Seq::filter);
    if fields.len() > 0 {
        let n = fields.len() - 1;
        assert forall|i: int| 0 <= i < fields.drop_last().len() implies (named(
            #[trigger] fields.drop_last()[i],
        ) ==> parts.drop_last()[i] == fields.drop_last()[i] && parts.drop_last()[i].len() > 0) && (
        !named(fields.drop_last()[i]) ==> parts.drop_last()[i].len() == 0 || !named(
            parts.drop_last()[i],
        )) by {
            assert(fields.drop_last()[i] == fields[i]);
            assert(parts.drop_last()[i] == parts[i]);
        }
        lemma_filter_of_kept(fields.drop_last(), parts.drop_last(), named);
        assert(fields[n] == fields.last());
        assert(parts[n] == parts.last());
        if parts.last().len() > 0 {
            let kept = rewrite_laws::nonempty(parts);
            assert(kept.drop_last() =~= rewrite_laws::nonempty(parts.drop_last()));
            assert(kept.last() == parts.last());
        }
    } else {
        assert(rewrite_laws::nonempty(parts).filter(named) =~= fields.filter(named));
    }
}

/// The whole of rewriting a message with one `From` and no field of another name
/// that the rewriting knows: the `From` is rewritten in its place, a `Reply-To`
/// comes behind the other fields unless the `From` is blank, and every other
/// byte stays.
pub proof fn law_rewriting_a_plain_message(
    fields: Seq<Seq<u8>>,
    names: Seq<Seq<char>>,
    rests: Seq<Seq<u8>>,
    empty: Seq<u8>,
    body: Seq<u8>,
    k: int,
    from_email: Seq<char>,
)
    requires
        names.len() == fields.len(),
        rests.len() == fields.len(),
        forall|i: int|
            0 <= i < fields.len() ==> is_written_as(#[trigger] fields[i], names[i], rests[i]),
        empty == seq![10u8] || empty == seq![13u8, 10u8],
        0 <= k < fields.len(),
        text::ascii_lower(text::trimmed(names[k])) == "from"@,
        forall|i: int|
            0 <= i < fields.len() && i != k ==> {
                let name = text::ascii_lower(text::trimmed(#[trigger] names[i]));
                name != "from"@ && name != "reply-to"@ && !is_one_of_four(name)
            },
    ensures
        ({
            let ending = rewrite::line_ending(header::concat(fields));
            rewrite::rewritten(header::concat(fields) + empty + body, from_email, None)
                == header::concat(fields.take(k)) + rewrite::rewritten_from(
                rests[k],
                from_email,
                ending,
            ) + header::concat(fields.skip(k + 1)) + (if scan::trimmed_ascii(
                rewrite::unfolded(rests[k]),
            ).len() > 0 {
                rewrite::reply_to_field(rests[k], ending)
            } else {
                Seq::empty()
            }) + empty + body
        }),
{
    let raw = header::concat(fields) + empty + body;
    let ending = rewrite::line_ending(header::concat(fields));
    law_a_message_is_read_as_it_is_written(fields, names, rests, empty, body);
    rewrite::lemma_header_names_differ();
    rewrite_laws::lemma_line_ending(header::concat(fields));
    let parts = rewrite::rewritten_fields(fields, from_email, None, ending);
    let from = rewrite::rewritten_from(rests[k], from_email, ending);
    assert forall|i: int| 0 <= i < fields.len() && i != k implies header::field_name(
        #[trigger] fields[i],
    ) != "from"@ && header::field_name(fields[i]) != "reply-to"@ && !is_one_of_four(
        header::field_name(fields[i]),
    ) by {
        assert(header::field_name(fields[i]) == text::ascii_lower(text::trimmed(names[i])));
    }
    assert(!comes_after_its_like(fields, k));
    assert(header::field_name(fields[k]) == "from"@);
    assert(rewrite::field_value(fields[k]) == rests[k]);
    assert forall|i: int| 0 <= i < fields.len() implies parts[i] == if i == k {
        from
    } else {
        fields[i]
    } by {
        law_which_fields_stay(raw, from_email, None, i);
        assert(header::field_name(fields[i]) == "from"@ <==> i == k);
    }
    assert(parts =~= fields.take(k) + seq![from] + fields.skip(k + 1));
    lemma_concat_around(fields.take(k), from, fields.skip(k + 1));
    law_when_a_reply_to_is_added(fields, ending, k);
    let kept = header::concat(parts);
    // The header ends its last line.
    assert(kept.len() > 0 ==> kept.last() == 10) by {
        let last = fields.len() - 1;
        assert(is_written_as(fields[last], names[last], rests[last]));
        law_the_rewritten_from(rests[k], from_email, ending);
        assert(from.last() == 10);
        lemma_written_field(fields[last], names[last], rests[last]);
        assert(parts.last().last() == 10);
    }
    assert(rewrite::line_break(kept, ending) =~= Seq::<u8>::empty());
    let added = if scan::trimmed_ascii(rewrite::unfolded(rests[k])).len() > 0 {
        rewrite::reply_to_field(rests[k], ending)
    } else {
        Seq::empty()
    };
    assert forall|j: int| 0 <= j < fields.len() implies header::field_name(#[trigger] fields[j])
        != "reply-to"@ by {
        if j == k {
            assert("from"@ != "reply-to"@);
        }
    }
    assert(rewrite::rewritten_header(fields, from_email, None, ending) =~= kept + added);
    assert(rewrite::rewritten(raw, from_email, None) =~= kept + added + empty + body);
}

proof fn lemma_concat_around(before: Seq<Seq<u8>>, part: Seq<u8>, after: Seq<Seq<u8>>)
    ensures
        header::concat(before + seq![part] + after) == header::concat(before) + part
            + header::concat(after),
    decreases after.len(),
{
    let all = before + seq![part] + after;
    if after.len() == 0 {
        assert(all.drop_last() =~= before);
        assert(all.last() == part);
        assert(header::concat(all) =~= header::concat(before) + part + header::concat(after));
    } else {
        lemma_concat_around(before, part, after.drop_last());
        assert(all.drop_last() =~= before + seq![part] + after.drop_last());
        assert(all.last() == after.last());
        assert(header::concat(all) =~= header::concat(before) + part + header::concat(after));
    }
}

} // verus!
