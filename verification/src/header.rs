//! The shape of a raw message: where the header block ends, which fields it
//! holds and what each is called. Everything works on bytes, in linear scans.
use crate::scan;
use crate::scan::{find_byte, COLON, CR, LF, SPACE, TAB};
use crate::search;
use crate::text;
use crate::text::{to_ascii_lowercase, trim};
use vstd::prelude::*;
use vstd::utf8;

verus! {

// ---------------------------------------------------------------------------
// Header block, separator and body
// ---------------------------------------------------------------------------

/// A line of `s` starts at `i`.
pub open spec fn line_starts_at(s: Seq<u8>, i: int) -> bool {
    i == 0 || (0 < i <= s.len() && s[i - 1] == LF)
}

/// The line that starts at `i` is blank: its terminator is all it holds.
pub open spec fn blank_line_at(s: Seq<u8>, i: int) -> bool {
    &&& 0 <= i < s.len()
    &&& line_starts_at(s, i)
    &&& s[i] == LF || (s[i] == CR && i + 1 < s.len() && s[i + 1] == LF)
}

/// The first blank line of `s` at or after `from`.
pub open spec fn next_blank_line(s: Seq<u8>, from: int) -> Option<int>
    decreases s.len() - from,
{
    if from < 0 || from >= s.len() {
        None
    } else if blank_line_at(s, from) {
        Some(from)
    } else {
        next_blank_line(s, from + 1)
    }
}

/// Where the header block of a message ends: at its first blank line, or at the
/// end of a message that has none.
pub open spec fn header_end(raw: Seq<u8>) -> int {
    match next_blank_line(raw, 0) {
        Some(i) => i,
        None => raw.len() as int,
    }
}

/// Where the body of a message starts: just past its first blank line.
pub open spec fn body_start(raw: Seq<u8>) -> int {
    match next_blank_line(raw, 0) {
        Some(i) => if raw[i] == LF {
            i + 1
        } else {
            i + 2
        },
        None => raw.len() as int,
    }
}

/// The header block of a message.
pub open spec fn header_block(raw: Seq<u8>) -> Seq<u8> {
    raw.take(header_end(raw))
}

/// The blank line between header block and body; empty when there is none.
pub open spec fn separator(raw: Seq<u8>) -> Seq<u8> {
    raw.subrange(header_end(raw), body_start(raw))
}

/// The body of a message.
pub open spec fn body(raw: Seq<u8>) -> Seq<u8> {
    raw.skip(body_start(raw))
}

/// `next_blank_line` finds a blank line with no earlier one in range, and
/// nothing only when there is none.
pub proof fn lemma_next_blank_line(s: Seq<u8>, from: int)
    requires
        0 <= from <= s.len(),
    ensures
        match next_blank_line(s, from) {
            Some(i) => {
                &&& from <= i < s.len()
                &&& blank_line_at(s, i)
                &&& forall|j: int| from <= j < i ==> !blank_line_at(s, j)
            },
            None => forall|j: int| from <= j < s.len() ==> !blank_line_at(s, j),
        },
    decreases s.len() - from,
{
    if from < s.len() && !blank_line_at(s, from) {
        lemma_next_blank_line(s, from + 1);
    }
}

/// Header block, separator and body lie in this order within the message.
pub proof fn lemma_message_parts(raw: Seq<u8>)
    ensures
        0 <= header_end(raw) <= body_start(raw) <= raw.len(),
        header_block(raw) + separator(raw) + body(raw) == raw,
{
    lemma_next_blank_line(raw, 0);
    assert(header_block(raw) + separator(raw) + body(raw) =~= raw);
}

/// Index of the next line feed at or after `start`, if any.
pub fn next_newline(bytes: &[u8], start: usize) -> (out: Option<usize>)
    requires
        start <= bytes@.len(),
    ensures
        match out {
            Some(i) => search::next_index(bytes@, LF, start as int) == Some(i as int),
            None => search::next_index(bytes@, LF, start as int) is None,
        },
{
    find_byte(bytes, LF, start)
}

/// Find the first blank line. Returns `(header_end, body_start)`, between which
/// the separator bytes stand.
pub fn find_body_boundary(raw: &[u8]) -> (out: Option<(usize, usize)>)
    ensures
        match out {
            Some((end, start)) => {
                &&& next_blank_line(raw@, 0) == Some(end as int)
                &&& end == header_end(raw@)
                &&& start == body_start(raw@)
            },
            None => next_blank_line(raw@, 0) is None,
        },
{
    let mut line_start: usize = 0;
    while line_start < raw.len()
        invariant
            line_start <= raw@.len(),
            line_starts_at(raw@, line_start as int),
            next_blank_line(raw@, 0) == next_blank_line(raw@, line_start as int),
        decreases raw@.len() - line_start,
    {
        if raw[line_start] == LF {
            return Some((line_start, line_start + 1));
        }
        if raw[line_start] == CR && line_start + 1 < raw.len() && raw[line_start + 1] == LF {
            return Some((line_start, line_start + 2));
        }
        proof {
            search::lemma_next_index(raw@, LF, line_start as int);
            lemma_next_blank_line(raw@, line_start as int);
        }
        match next_newline(raw, line_start) {
            Some(newline_index) => {
                proof {
                    lemma_next_blank_line(raw@, newline_index + 1);
                    assert forall|j: int| line_start <= j <= newline_index implies !blank_line_at(
                        raw@,
                        j,
                    ) by {
                        if j > line_start {
                            assert(raw@[j - 1] != LF);
                        }
                    }
                }
                line_start = newline_index + 1;
            },
            None => {
                proof {
                    assert forall|j: int| line_start <= j < raw@.len() implies !blank_line_at(
                        raw@,
                        j,
                    ) by {
                        if j > line_start {
                            assert(raw@[j - 1] != LF);
                        }
                    }
                }
                return None;
            },
        }
    }
    None
}

/// Split a raw message into `(header_block, separator, body)`.
///
/// The separator is the blank line that divides headers from body. When there
/// is no blank line the whole message is the header block.
pub fn split_message(raw: &[u8]) -> (out: (&[u8], &[u8], &[u8]))
    ensures
        out.0@ == header_block(raw@),
        out.1@ == separator(raw@),
        out.2@ == body(raw@),
{
    proof {
        lemma_message_parts(raw@);
    }
    match find_body_boundary(raw) {
        Some((header_end, body_start)) => {
            let len: usize = raw.len();
            (&raw[0..header_end], &raw[header_end..body_start], &raw[body_start..len])
        },
        None => {
            let len: usize = raw.len();
            (&raw[0..len], &raw[len..len], &raw[len..len])
        },
    }
}

// ---------------------------------------------------------------------------
// Fields
// ---------------------------------------------------------------------------

/// A field of the block `s` ends at `i`: the block does, or a line starts there
/// that does not continue the field.
pub open spec fn field_ends_at(s: Seq<u8>, i: int) -> bool {
    i == s.len() || (0 < i < s.len() && s[i - 1] == LF && !scan::is_blank(s[i]))
}

/// The first index at or after `from` at which a field of `s` ends.
pub open spec fn next_field_end(s: Seq<u8>, from: int) -> int
    decreases s.len() - from,
{
    if from >= s.len() || field_ends_at(s, from) {
        from
    } else {
        next_field_end(s, from + 1)
    }
}

/// The length of the field that a non-empty block starts with.
pub open spec fn field_len(s: Seq<u8>) -> int {
    next_field_end(s, 1)
}

/// The fields of a header block, each its first line with the continuation
/// lines (those that begin with a space or a tab) that follow it.
pub open spec fn split_fields(s: Seq<u8>) -> Seq<Seq<u8>>
    decreases s.len(),
{
    if s.len() == 0 {
        Seq::empty()
    } else {
        proof {
            lemma_next_field_end(s, 1);
        }
        seq![s.take(field_len(s))] + split_fields(s.skip(field_len(s)))
    }
}

/// `next_field_end` finds an end of a field with no earlier one in range.
pub proof fn lemma_next_field_end(s: Seq<u8>, from: int)
    requires
        0 <= from <= s.len(),
    ensures
        from <= next_field_end(s, from) <= s.len(),
        field_ends_at(s, next_field_end(s, from)),
        forall|j: int| from <= j < next_field_end(s, from) ==> !field_ends_at(s, j),
    decreases s.len() - from,
{
    if from < s.len() && !field_ends_at(s, from) {
        lemma_next_field_end(s, from + 1);
    }
}

/// The concatenation of byte strings.
pub open spec fn concat(parts: Seq<Seq<u8>>) -> Seq<u8>
    decreases parts.len(),
{
    if parts.len() == 0 {
        Seq::empty()
    } else {
        concat(parts.drop_last()) + parts.last()
    }
}

/// Concatenation may start with its first part as well as end with its last.
pub proof fn lemma_concat_first(parts: Seq<Seq<u8>>)
    requires
        parts.len() > 0,
    ensures
        concat(parts) == parts[0] + concat(parts.drop_first()),
    decreases parts.len(),
{
    if parts.len() == 1 {
        assert(parts.drop_last() =~= Seq::<Seq<u8>>::empty());
        assert(parts.drop_first() =~= Seq::<Seq<u8>>::empty());
        assert(concat(parts.drop_last()) =~= Seq::<u8>::empty());
        assert(concat(parts) =~= parts[0] + concat(parts.drop_first()));
    } else {
        lemma_concat_first(parts.drop_last());
        assert(parts.drop_last().drop_first() =~= parts.drop_first().drop_last());
        assert(concat(parts) =~= parts[0] + concat(parts.drop_first()));
    }
}

/// The fields of a header block, put together again, are the block.
pub proof fn lemma_fields_concat(s: Seq<u8>)
    ensures
        concat(split_fields(s)) == s,
    decreases s.len(),
{
    if s.len() > 0 {
        lemma_next_field_end(s, 1);
        let n = field_len(s);
        lemma_fields_concat(s.skip(n));
        lemma_concat_first(split_fields(s));
        assert(split_fields(s).drop_first() =~= split_fields(s.skip(n)));
        assert(s.take(n) + s.skip(n) =~= s);
    }
}

/// Index just past the line that holds `from`.
pub open spec fn line_end(s: Seq<u8>, from: int) -> int {
    match search::next_index(s, LF, from) {
        Some(i) => i + 1,
        None => s.len() as int,
    }
}

/// Index just past the next line feed from `start`, or the end of the slice.
pub fn end_of_line(bytes: &[u8], start: usize) -> (out: usize)
    requires
        start <= bytes@.len(),
    ensures
        out == line_end(bytes@, start as int),
        start <= out <= bytes@.len(),
        start < bytes@.len() ==> start < out,
{
    proof {
        search::lemma_next_index(bytes@, LF, start as int);
    }
    let len: usize = bytes.len();
    match next_newline(bytes, start) {
        Some(newline_index) => newline_index + 1,
        None => len,
    }
}

// ---------------------------------------------------------------------------
// Field names
// ---------------------------------------------------------------------------

/// What `String::from_utf8_lossy` makes of bytes that are not well-formed UTF-8:
/// the texts before and after the first replacement character `U+FFFD` that it
/// puts in.
pub uninterp spec fn lossy_parts(bytes: Seq<u8>) -> (Seq<char>, Seq<char>);

/// The text of bytes, with replacement characters for what is not UTF-8.
pub open spec fn lossy_text(bytes: Seq<u8>) -> Seq<char> {
    if utf8::valid_utf8(bytes) {
        utf8::decode_utf8(bytes)
    } else {
        lossy_parts(bytes).0 + seq!['\u{fffd}'] + lossy_parts(bytes).1
    }
}

/// `String::from_utf8_lossy`: the text that the bytes encode when they are
/// well-formed UTF-8. Otherwise it puts in at least one replacement character
/// `U+FFFD`; `lossy_parts` names what stands before and after the first one.
#[verifier::external_body]
fn from_utf8_lossy(bytes: &[u8]) -> (out: String)
    ensures
        utf8::valid_utf8(bytes@) ==> out@ == utf8::decode_utf8(bytes@),
        !utf8::valid_utf8(bytes@) ==> out@ == lossy_parts(bytes@).0 + seq!['\u{fffd}']
            + lossy_parts(bytes@).1,
{
    String::from_utf8_lossy(bytes).into_owned()
}

/// The first colon on the first line of a field.
pub open spec fn name_colon(field: Seq<u8>) -> Option<int> {
    search::first_index(field.take(line_end(field, 0)), COLON)
}

/// The name that `bytes` spell: trimmed and in lower case.
pub open spec fn name_text(bytes: Seq<u8>) -> Seq<char> {
    text::ascii_lower(text::trimmed(lossy_text(bytes)))
}

/// The lower-case name of a field: what stands before the first colon of its
/// first line. A field without such a colon has an empty name.
pub open spec fn field_name(field: Seq<u8>) -> Seq<char> {
    match name_colon(field) {
        Some(colon) => name_text(field.take(colon)),
        None => Seq::empty(),
    }
}

/// The lower-case field name (bytes before the first `:` on the first line).
/// A line with no colon yields an empty name and matches no transform.
pub fn extract_field_name(field_bytes: &[u8]) -> (out: String)
    ensures
        out@ == field_name(field_bytes@),
{
    let first_line_end: usize = end_of_line(field_bytes, 0);
    let first_line = &field_bytes[0..first_line_end];
    assert(first_line@ =~= field_bytes@.take(line_end(field_bytes@, 0)));
    proof {
        search::lemma_next_index(first_line@, COLON, 0);
    }
    match find_byte(first_line, COLON, 0) {
        Some(colon) => {
            let name = &field_bytes[0..colon];
            assert(name@ =~= field_bytes@.take(colon as int));
            let name = trim(from_utf8_lossy(name).as_str());
            to_ascii_lowercase(name.as_str())
        },
        None => String::new(),
    }
}

/// A parsed header field: its lower-case name and its exact raw bytes
/// (with any folded continuation lines and the trailing terminator).
#[derive(Debug)]
pub struct HeaderField {
    pub name_lower: String,
    pub bytes: Vec<u8>,
}

impl HeaderField {
    /// The name is the one that the bytes spell.
    pub open spec fn wf(self) -> bool {
        self.name_lower@ == field_name(self.bytes@)
    }
}

/// The raw bytes of each field.
pub open spec fn fields_bytes(fields: Seq<HeaderField>) -> Seq<Seq<u8>> {
    fields.map_values(|field: HeaderField| field.bytes@)
}

/// Parse the header block into fields, fold-aware. A field is its first line
/// plus any following continuation lines (lines beginning with space or tab).
/// The concatenation of every field's bytes equals the input exactly.
pub fn parse_header_fields(header_block: &[u8]) -> (out: Vec<HeaderField>)
    ensures
        fields_bytes(out@) == split_fields(header_block@),
        concat(fields_bytes(out@)) == header_block@,
        forall|i: int| 0 <= i < out@.len() ==> (#[trigger] out@[i]).wf(),
{
    let mut fields: Vec<HeaderField> = Vec::new();
    let mut index: usize = 0;
    let ghost s = header_block@;
    assert(s.skip(0) =~= s);
    assert(fields_bytes(fields@) + split_fields(s) =~= split_fields(s));
    while index < header_block.len()
        invariant
            s == header_block@,
            index <= s.len(),
            fields_bytes(fields@) + split_fields(s.skip(index as int)) == split_fields(s),
            forall|i: int| 0 <= i < fields@.len() ==> (#[trigger] fields@[i]).wf(),
        decreases s.len() - index,
    {
        let field_start: usize = index;
        let ghost rest = s.skip(field_start as int);
        proof {
            search::lemma_next_index(s, LF, index as int);
        }
        index = end_of_line(header_block, index);
        while index < header_block.len() && (header_block[index] == SPACE || header_block[index]
            == TAB)
            invariant
                s == header_block@,
                rest == s.skip(field_start as int),
                field_start < index <= s.len(),
                index == s.len() || s[index - 1] == LF,
                forall|j: int| 1 <= j < index - field_start ==> !field_ends_at(rest, j),
            decreases s.len() - index,
        {
            proof {
                search::lemma_next_index(s, LF, index as int);
            }
            index = end_of_line(header_block, index);
        }
        proof {
            let n = index - field_start;
            assert(field_ends_at(rest, n));
            lemma_next_field_end(rest, 1);
            assert(field_len(rest) == n);
            assert(rest.skip(n) =~= s.skip(index as int));
            assert(rest.take(n) =~= s.subrange(field_start as int, index as int));
        }
        let bytes = vstd::slice::slice_to_vec(&header_block[field_start..index]);
        let name_lower = extract_field_name(bytes.as_slice());
        let ghost before = fields@;
        fields.push(HeaderField { name_lower, bytes });
        proof {
            assert(fields_bytes(fields@) =~= fields_bytes(before).push(rest.take(field_len(rest))));
            assert(fields_bytes(fields@) + split_fields(s.skip(index as int)) =~= fields_bytes(
                before,
            ) + split_fields(rest));
        }
    }
    proof {
        lemma_fields_concat(s);
        assert(fields_bytes(fields@) + split_fields(s.skip(index as int)) =~= fields_bytes(
            fields@,
        ));
    }
    fields
}

} // verus!
