//! What holds of every rewritten message.
use crate::header;
use crate::rewrite;
use crate::scan;
use crate::scan::{COLON, CR, GREATER_THAN, LESS_THAN, LF, SPACE};
use crate::search;
use crate::text;
use vstd::prelude::*;
use vstd::utf8;

verus! {

// ---------------------------------------------------------------------------
// Unchanged parts and messages
// ---------------------------------------------------------------------------

/// All that follows the header block of a message, the blank line and the body,
/// is the end of the rewritten message too, byte for byte.
pub proof fn law_body_is_preserved(raw: Seq<u8>, from_email: Seq<char>, prefix: Option<Seq<char>>)
    ensures
        ({
            let rest = raw.skip(header::header_block(raw).len() as int);
            let out = rewrite::rewritten(raw, from_email, prefix);
            &&& header::header_block(raw) + rest == raw
            &&& rest.len() <= out.len()
            &&& out.skip(out.len() - rest.len()) == rest
        }),
{
    header::lemma_message_parts(raw);
    let block = header::header_block(raw);
    let rest = raw.skip(block.len() as int);
    let out = rewrite::rewritten(raw, from_email, prefix);
    assert(rest =~= header::separator(raw) + header::body(raw));
    assert(block + rest =~= raw);
    assert(out.skip(out.len() - rest.len()) =~= rest);
}

/// When nothing needs to change, the rewritten message is the message, byte for
/// byte: it has no `From`, none of the fields that are removed, and no
/// `Subject` that a prefix would go to.
pub proof fn law_unchanged_message_is_identical(
    raw: Seq<u8>,
    from_email: Seq<char>,
    prefix: Option<Seq<char>>,
)
    requires
        ({
            let names = rewrite::field_names(header::split_fields(header::header_block(raw)));
            &&& !names.contains("from"@)
            &&& forall|i: int| 0 <= i < names.len() ==> !rewrite::is_removed(#[trigger] names[i])
            &&& prefix is Some ==> !names.contains("subject"@)
        }),
    ensures
        rewrite::rewritten(raw, from_email, prefix) == raw,
{
    let block = header::header_block(raw);
    let fields = header::split_fields(block);
    let names = rewrite::field_names(fields);
    let ending = rewrite::line_ending(block);
    let parts = rewrite::rewritten_fields(fields, from_email, prefix, ending);
    assert(parts =~= fields) by {
        assert forall|i: int| 0 <= i < fields.len() implies parts[i] == fields[i] by {
            assert(!rewrite::is_removed(names[i]));
        }
    }
    search::lemma_next_index(names, "from"@, 0);
    header::lemma_fields_concat(block);
    header::lemma_message_parts(raw);
}

// ---------------------------------------------------------------------------
// One line
// ---------------------------------------------------------------------------

/// An unfolded value holds no carriage return and no line feed, whatever the
/// value: what is reused of a header cannot break a line.
pub proof fn law_unfolded_is_one_line(value: Seq<u8>)
    ensures
        !rewrite::unfolded(value).contains(CR),
        !rewrite::unfolded(value).contains(LF),
    decreases value.len(),
{
    let out = rewrite::unfolded(value);
    if value.len() > 0 {
        if !scan::is_terminator(value[0]) {
            let tail = value.drop_first();
            law_unfolded_is_one_line(tail);
            lemma_prepend_contains(value[0], rewrite::unfolded(tail), CR);
            lemma_prepend_contains(value[0], rewrite::unfolded(tail), LF);
        } else {
            let rest = value.skip(rewrite::terminator_len(value));
            let blanks = scan::blank_run(rest);
            if 0 < blanks <= rest.len() {
                let tail = rest.skip(blanks as int);
                law_unfolded_is_one_line(tail);
                lemma_prepend_contains(SPACE, rewrite::unfolded(tail), CR);
                lemma_prepend_contains(SPACE, rewrite::unfolded(tail), LF);
            } else {
                law_unfolded_is_one_line(rest);
            }
        }
    }
}

proof fn lemma_prepend_contains(first: u8, rest: Seq<u8>, byte: u8)
    requires
        first != byte,
        !rest.contains(byte),
    ensures
        !(seq![first] + rest).contains(byte),
{
    lemma_add_contains(seq![first], rest, byte);
}

proof fn lemma_add_contains(a: Seq<u8>, b: Seq<u8>, byte: u8)
    requires
        !a.contains(byte),
        !b.contains(byte),
    ensures
        !(a + b).contains(byte),
{
    assert forall|i: int| 0 <= i < (a + b).len() implies (a + b)[i] != byte by {
        if i < a.len() {
            assert((a + b)[i] == a[i]);
        } else {
            assert((a + b)[i] == b[i - a.len()]);
        }
    }
}

/// The display name holds no carriage return and no line feed.
proof fn lemma_display_name_one_line(value: Seq<u8>, byte: u8)
    requires
        byte == CR || byte == LF,
    ensures
        !rewrite::display_name(value).contains(byte),
{
    law_unfolded_is_one_line(value);
    let address = scan::trimmed_ascii(rewrite::unfolded(value));
    scan::lemma_trimmed_ascii_contains(rewrite::unfolded(value), byte);
    search::lemma_next_index(address, LESS_THAN, 0);
    match search::first_index(address, LESS_THAN) {
        Some(angle) => {
            assert forall|i: int| 0 <= i < angle implies address.take(angle)[i] != byte by {
                assert(address.take(angle)[i] == address[i]);
            }
            scan::lemma_trimmed_ascii_contains(address.take(angle), byte);
        },
        None => {},
    }
}

// ---------------------------------------------------------------------------
// Sound fields
// ---------------------------------------------------------------------------

/// `s` has no blank line.
pub open spec fn no_blank_line(s: Seq<u8>) -> bool {
    forall|i: int| 0 <= i < s.len() ==> !header::blank_line_at(s, i)
}

/// `s` is empty or ends with a line feed.
pub open spec fn whole_lines(s: Seq<u8>) -> bool {
    s.len() == 0 || s.last() == LF
}

/// `f` is one field, without a blank line.
pub open spec fn sound_field(f: Seq<u8>) -> bool {
    &&& f.len() > 0
    &&& no_blank_line(f)
    &&& forall|j: int| 1 <= j < f.len() ==> !header::field_ends_at(f, j)
}

/// `parts` are fields that stay apart when they are put together: each but the
/// last ends with a line feed, and none but the first starts with a space or a
/// tab.
pub open spec fn sound_fields(parts: Seq<Seq<u8>>) -> bool {
    &&& forall|i: int| 0 <= i < parts.len() ==> sound_field(#[trigger] parts[i])
    &&& forall|i: int| 0 <= i < parts.len() - 1 ==> (#[trigger] parts[i]).last() == LF
    &&& forall|i: int| 0 < i < parts.len() ==> !scan::is_blank((#[trigger] parts[i])[0])
}

proof fn lemma_no_blank_line_add(a: Seq<u8>, b: Seq<u8>)
    requires
        whole_lines(a),
        no_blank_line(a),
        no_blank_line(b),
    ensures
        no_blank_line(a + b),
{
    let s = a + b;
    assert forall|i: int| 0 <= i < s.len() implies !header::blank_line_at(s, i) by {
        if i < a.len() {
            assert(!header::blank_line_at(a, i));
            assert(s[i] == a[i]);
            if i > 0 {
                assert(s[i - 1] == a[i - 1]);
            }
            if i + 1 < a.len() {
                assert(s[i + 1] == a[i + 1]);
            }
        } else {
            let k = i - a.len();
            assert(!header::blank_line_at(b, k));
            assert(s[i] == b[k]);
            if k > 0 {
                assert(s[i - 1] == b[k - 1]);
            }
            if k + 1 < b.len() {
                assert(s[i + 1] == b[k + 1]);
            }
        }
    }
}

/// Sound fields, put together, have no blank line and come apart into the same
/// fields.
proof fn lemma_sound_fields_split(parts: Seq<Seq<u8>>)
    requires
        sound_fields(parts),
    ensures
        header::split_fields(header::concat(parts)) == parts,
        no_blank_line(header::concat(parts)),
        parts.len() > 0 ==> header::concat(parts).len() > 0 && header::concat(parts)[0]
            == parts[0][0] && header::concat(parts).last() == parts.last().last(),
    decreases parts.len(),
{
    let s = header::concat(parts);
    if parts.len() == 0 {
        assert(header::split_fields(s) =~= parts);
    } else {
        let first = parts[0];
        let tail = parts.drop_first();
        assert(sound_fields(tail)) by {
            assert forall|i: int| 0 <= i < tail.len() implies sound_field(#[trigger] tail[i]) by {
                assert(tail[i] == parts[i + 1]);
            }
            assert forall|i: int| 0 <= i < tail.len() - 1 implies (#[trigger] tail[i]).last()
                == LF by {
                assert(tail[i] == parts[i + 1]);
            }
            assert forall|i: int| 0 < i < tail.len() implies !scan::is_blank(
                (#[trigger] tail[i])[0],
            ) by {
                assert(tail[i] == parts[i + 1]);
            }
        }
        lemma_sound_fields_split(tail);
        header::lemma_concat_first(parts);
        let rest = header::concat(tail);
        assert(s == first + rest);
        assert(sound_field(first));
        if tail.len() > 0 {
            lemma_no_blank_line_add(first, rest);
        } else {
            assert(rest.len() == 0);
            assert(s =~= first);
        }
        header::lemma_next_field_end(s, 1);
        let n = header::field_len(s);
        assert forall|j: int| 1 <= j < first.len() implies !header::field_ends_at(s, j) by {
            assert(!header::field_ends_at(first, j));
            assert(s[j - 1] == first[j - 1]);
            assert(s[j] == first[j]);
        }
        assert(header::field_ends_at(s, first.len() as int)) by {
            if tail.len() > 0 {
                assert(tail[0] == parts[1]);
                assert(s[first.len() as int] == rest[0]);
                assert(s[first.len() - 1] == first.last());
            }
        }
        assert(n == first.len());
        assert(s.take(n) =~= first);
        assert(s.skip(n) =~= rest);
        assert(header::split_fields(s) =~= parts);
        if tail.len() > 0 {
            assert(s.last() == rest.last());
            assert(tail.last() == parts.last());
        }
    }
}

/// The fields of a block without a blank line are sound, and the last of them
/// ends as the block does.
pub proof fn lemma_fields_sound(s: Seq<u8>)
    requires
        no_blank_line(s),
    ensures
        sound_fields(header::split_fields(s)),
        s.len() > 0 ==> header::split_fields(s).len() > 0 && header::split_fields(s)[0][0] == s[0]
            && header::split_fields(s).last().last() == s.last(),
    decreases s.len(),
{
    if s.len() > 0 {
        header::lemma_next_field_end(s, 1);
        let n = header::field_len(s);
        let first = s.take(n);
        let rest = s.skip(n);
        assert(first.last() == s[n - 1]);
        assert(no_blank_line(first)) by {
            assert forall|i: int| 0 <= i < first.len() implies !header::blank_line_at(first, i) by {
                assert(!header::blank_line_at(s, i));
            }
        }
        assert(no_blank_line(rest)) by {
            assert forall|i: int| 0 <= i < rest.len() implies !header::blank_line_at(rest, i) by {
                assert(!header::blank_line_at(s, i + n));
                assert(rest[i] == s[i + n]);
            }
        }
        assert forall|j: int| 1 <= j < first.len() implies !header::field_ends_at(first, j) by {
            assert(!header::field_ends_at(s, j));
        }
        if rest.len() > 0 {
            assert(rest.last() == s.last());
            assert(first.last() == LF);
        }
        lemma_fields_sound(rest);
        let fields = header::split_fields(s);
        let others = header::split_fields(rest);
        assert forall|i: int| 0 <= i < fields.len() implies sound_field(#[trigger] fields[i]) by {
            if i > 0 {
                assert(fields[i] == others[i - 1]);
            }
        }
        assert forall|i: int| 0 <= i < fields.len() - 1 implies (#[trigger] fields[i]).last()
            == LF by {
            if i > 0 {
                assert(fields[i] == others[i - 1]);
            }
        }
        assert forall|i: int| 0 < i < fields.len() implies !scan::is_blank(
            (#[trigger] fields[i])[0],
        ) by {
            assert(fields[i] == others[i - 1]);
            if i == 1 {
                assert(rest.len() > 0);
                assert(rest[0] == s[n]);
            }
        }
        if rest.len() > 0 {
            assert(fields.last() == others.last());
        } else {
            assert(others.len() == 0);
            assert(fields.last() == first);
        }
    }
}

// ---------------------------------------------------------------------------
// Synthesized fields
// ---------------------------------------------------------------------------

pub proof fn lemma_from_bytes()
    ensures
        utf8::encode_utf8("From: "@) == utf8::encode_utf8("From"@) + seq![COLON, SPACE],
        utf8::encode_utf8("From"@) == seq![70u8, 114u8, 111u8, 109u8],
        text::ascii_lower(text::trimmed("From"@)) == "from"@,
        utf8::encode_utf8(" <"@) == seq![SPACE, LESS_THAN],
{
    reveal_strlit("From: ");
    reveal_strlit("From");
    reveal_strlit("from");
    reveal_strlit(" <");
    utf8::is_ascii_chars_encode_utf8("From: "@);
    utf8::is_ascii_chars_encode_utf8("From"@);
    utf8::is_ascii_chars_encode_utf8(" <"@);
    assert(utf8::encode_utf8("From"@) =~= seq![70u8, 114u8, 111u8, 109u8]);
    assert(utf8::encode_utf8("From: "@) =~= utf8::encode_utf8("From"@) + seq![COLON, SPACE]);
    assert(utf8::encode_utf8(" <"@) =~= seq![SPACE, LESS_THAN]);
    assert(text::trimmed("From"@) == "From"@);
    assert(text::ascii_lower("From"@) =~= "from"@);
}

pub proof fn lemma_reply_to_bytes()
    ensures
        utf8::encode_utf8("Reply-To:"@) == utf8::encode_utf8("Reply-To"@) + seq![COLON],
        utf8::encode_utf8("Reply-To"@) == seq![
            82u8,
            101u8,
            112u8,
            108u8,
            121u8,
            45u8,
            84u8,
            111u8,
        ],
        text::ascii_lower(text::trimmed("Reply-To"@)) == "reply-to"@,
{
    reveal_strlit("Reply-To:");
    reveal_strlit("Reply-To");
    reveal_strlit("reply-to");
    utf8::is_ascii_chars_encode_utf8("Reply-To:"@);
    utf8::is_ascii_chars_encode_utf8("Reply-To"@);
    assert(utf8::encode_utf8("Reply-To"@) =~= seq![
        82u8,
        101u8,
        112u8,
        108u8,
        121u8,
        45u8,
        84u8,
        111u8,
    ]);
    assert(utf8::encode_utf8("Reply-To:"@) =~= utf8::encode_utf8("Reply-To"@) + seq![COLON]);
    assert(text::trimmed("Reply-To"@) == "Reply-To"@);
    assert(text::ascii_lower("Reply-To"@) =~= "reply-to"@);
}

/// A field that starts with a name and a colon has that name, trimmed and in
/// lower case.
pub proof fn lemma_field_name(name: Seq<char>, rest: Seq<u8>)
    requires
        !utf8::encode_utf8(name).contains(COLON),
        !utf8::encode_utf8(name).contains(LF),
    ensures
        ({
            let field = utf8::encode_utf8(name) + seq![COLON] + rest;
            &&& header::name_colon(field) == Some(utf8::encode_utf8(name).len() as int)
            &&& header::field_name(field) == text::ascii_lower(text::trimmed(name))
        }),
{
    let bytes = utf8::encode_utf8(name);
    let field = bytes + seq![COLON] + rest;
    let colon = bytes.len() as int;
    assert forall|j: int| 0 <= j < colon implies field[j] != COLON && field[j] != LF by {
        assert(field[j] == bytes[j]);
    }
    assert(field[colon] == COLON);
    search::lemma_next_index(field, LF, 0);
    let line = field.take(header::line_end(field, 0));
    assert(colon < line.len());
    search::lemma_next_index_is(line, COLON, 0, colon);
    assert(field.take(colon) =~= bytes);
    utf8::encode_utf8_valid_utf8(name);
    utf8::encode_utf8_decode_utf8(name);
}

/// Text without a line feed, that starts neither with a space or tab nor with a
/// terminator, makes a sound field when a line ending follows it.
proof fn lemma_one_line_field(line: Seq<u8>, ending: Seq<u8>)
    requires
        line.len() > 0,
        !line.contains(LF),
        line[0] != CR,
        ending == seq![LF] || ending == seq![CR, LF],
    ensures
        sound_field(line + ending),
        (line + ending).last() == LF,
        (line + ending)[0] == line[0],
{
    let f = line + ending;
    assert forall|i: int| 0 <= i < f.len() - 1 implies f[i] != LF by {
        if i < line.len() {
            assert(f[i] == line[i]);
        } else {
            assert(f[i] == ending[i - line.len()]);
        }
    }
    assert(f.last() == ending.last());
    assert forall|i: int| 0 <= i < f.len() implies !header::blank_line_at(f, i) by {
        if i > 0 {
            assert(f[i - 1] != LF);
        }
    }
    assert forall|j: int| 1 <= j < f.len() implies !header::field_ends_at(f, j) by {
        assert(f[j - 1] != LF);
    }
}

pub proof fn lemma_line_ending(block: Seq<u8>)
    ensures
        rewrite::line_ending(block) == seq![LF] || rewrite::line_ending(block) == seq![CR, LF],
{
}

/// The rewritten `From` is a sound field named `From`, whatever the value it
/// replaces, as long as the sender address holds no line feed.
proof fn lemma_rewritten_from_field(value: Seq<u8>, from_email: Seq<char>, ending: Seq<u8>)
    requires
        !utf8::encode_utf8(from_email).contains(LF),
        ending == seq![LF] || ending == seq![CR, LF],
    ensures
        ({
            let field = rewrite::rewritten_from(value, from_email, ending);
            &&& sound_field(field)
            &&& field.last() == LF
            &&& !scan::is_blank(field[0])
            &&& header::field_name(field) == "from"@
        }),
{
    let email = utf8::encode_utf8(from_email);
    let name = rewrite::display_name(value);
    let field = rewrite::rewritten_from(value, from_email, ending);
    lemma_from_bytes();
    let start = utf8::encode_utf8("From"@);
    lemma_display_name_one_line(value, LF);
    let address = if name.len() == 0 {
        email
    } else {
        name + seq![SPACE, LESS_THAN] + email + seq![GREATER_THAN]
    };
    assert(!address.contains(LF)) by {
        if name.len() > 0 {
            lemma_add_contains(name, seq![SPACE, LESS_THAN], LF);
            lemma_add_contains(name + seq![SPACE, LESS_THAN], email, LF);
            lemma_add_contains(name + seq![SPACE, LESS_THAN] + email, seq![GREATER_THAN], LF);
        }
    }
    let line = start + seq![COLON, SPACE] + address;
    lemma_add_contains(start, seq![COLON, SPACE], LF);
    lemma_add_contains(start + seq![COLON, SPACE], address, LF);
    assert(field =~= line + ending);
    lemma_one_line_field(line, ending);
    assert(line[0] == 70u8);
    let rest = seq![SPACE] + address + ending;
    assert(field =~= start + seq![COLON] + rest);
    lemma_field_name("From"@, rest);
}

/// The `Reply-To` that is added is a sound field of that name.
pub proof fn lemma_reply_to_field(value: Seq<u8>, ending: Seq<u8>)
    requires
        ending == seq![LF] || ending == seq![CR, LF],
    ensures
        ({
            let field = rewrite::reply_to_field(value, ending);
            &&& sound_field(field)
            &&& field.last() == LF
            &&& !scan::is_blank(field[0])
            &&& header::field_name(field) == "reply-to"@
        }),
{
    let field = rewrite::reply_to_field(value, ending);
    lemma_reply_to_bytes();
    law_unfolded_is_one_line(value);
    let start = utf8::encode_utf8("Reply-To"@);
    let unfolded = rewrite::unfolded(value);
    let line = start + seq![COLON] + unfolded;
    lemma_add_contains(start, seq![COLON], LF);
    lemma_add_contains(start + seq![COLON], unfolded, LF);
    assert(field =~= line + ending);
    lemma_one_line_field(line, ending);
    assert(line[0] == 82u8);
    assert(field =~= start + seq![COLON] + (unfolded + ending));
    lemma_field_name("Reply-To"@, unfolded + ending);
}

/// A field with a name has its first colon on its first line, past at least one
/// byte.
proof fn lemma_named_field_colon(field: Seq<u8>)
    requires
        header::field_name(field).len() > 0,
    ensures
        header::name_colon(field) is Some,
        search::first_index(field, COLON) == header::name_colon(field),
        ({
            let colon = header::name_colon(field)->0;
            &&& 0 < colon < field.len()
            &&& field[colon] == COLON
            &&& forall|j: int| 0 <= j < colon ==> field[j] != LF && field[j] != COLON
        }),
{
    search::lemma_next_index(field, LF, 0);
    let line = field.take(header::line_end(field, 0));
    search::lemma_next_index(line, COLON, 0);
    let colon = header::name_colon(field)->0;
    assert forall|j: int| 0 <= j < colon implies field[j] != LF && field[j] != COLON by {
        assert(field[j] == line[j]);
    }
    assert(field[colon] == line[colon]);
    search::lemma_next_index_is(field, COLON, 0, colon);
    if colon == 0 {
        assert(field.take(0) =~= Seq::<u8>::empty());
        assert(utf8::valid_utf8(Seq::<u8>::empty()));
        assert(utf8::decode_utf8(Seq::<u8>::empty()) =~= Seq::<char>::empty());
        assert(text::trimmed(Seq::<char>::empty()) =~= Seq::<char>::empty());
        assert(text::ascii_lower(Seq::<char>::empty()) =~= Seq::<char>::empty());
    }
}

/// Putting a prefix without a line feed in front of the text of a named field
/// keeps it a sound field of the same name, and an ending that it has.
proof fn lemma_prefixed_subject_field(field: Seq<u8>, prefix: Seq<char>)
    requires
        sound_field(field),
        header::field_name(field).len() > 0,
        !utf8::encode_utf8(prefix).contains(LF),
    ensures
        ({
            let out = rewrite::prefixed_subject(field, prefix);
            &&& sound_field(out)
            &&& field.last() == LF ==> out.last() == LF
            &&& out[0] == field[0]
            &&& header::field_name(out) == header::field_name(field)
        }),
{
    lemma_named_field_colon(field);
    let colon = header::name_colon(field)->0;
    let added = utf8::encode_utf8(prefix);
    let n = added.len() as int;
    scan::lemma_blank_run(field.skip(colon + 1));
    let start = rewrite::value_text_start(field)->0;
    let out = rewrite::prefixed_subject(field, prefix);
    assert(start <= field.len());
    assert forall|j: int| 0 <= j < start implies field[j] != LF by {
        if j > colon {
            assert(field[j] == field.skip(colon + 1)[j - colon - 1]);
        }
    }
    assert(field.last() == LF ==> start < field.len());
    assert(out.len() == field.len() + n);
    assert forall|j: int| 0 <= j < start implies out[j] == field[j] by {}
    assert forall|j: int| start + n <= j < out.len() implies out[j] == field[j - n] by {}
    assert forall|j: int| 0 <= j < start + n implies out[j] != LF by {
        if j >= start {
            assert(out[j] == added[j - start]);
        }
    }
    assert forall|i: int| 0 <= i < out.len() implies !header::blank_line_at(out, i) by {
        if i == 0 {
            assert(!header::blank_line_at(field, 0));
            assert(out[1] == field[1]);
        } else if i > start + n {
            assert(!header::blank_line_at(field, i - n));
        } else {
            assert(out[i - 1] != LF);
        }
    }
    assert forall|j: int| 1 <= j < out.len() implies !header::field_ends_at(out, j) by {
        if j > start + n {
            assert(!header::field_ends_at(field, j - n));
        } else {
            assert(out[j - 1] != LF);
        }
    }
    // The name stands on the first line of both, before the same colon.
    search::lemma_next_index(out, LF, 0);
    let line = out.take(header::line_end(out, 0));
    assert(colon < line.len());
    assert forall|j: int| 0 <= j < colon implies line[j] != COLON by {
        assert(line[j] == field[j]);
    }
    search::lemma_next_index_is(line, COLON, 0, colon);
    assert(out.take(colon) =~= field.take(colon));
}

// ---------------------------------------------------------------------------
// The rewritten message, read again
// ---------------------------------------------------------------------------

/// The parts that are not empty, in order.
pub open spec fn nonempty(parts: Seq<Seq<u8>>) -> Seq<Seq<u8>>
    decreases parts.len(),
{
    if parts.len() == 0 {
        Seq::empty()
    } else if parts.last().len() > 0 {
        nonempty(parts.drop_last()).push(parts.last())
    } else {
        nonempty(parts.drop_last())
    }
}

/// How many of `fields` have the given name.
pub open spec fn count_named(fields: Seq<Seq<u8>>, name: Seq<char>) -> nat
    decreases fields.len(),
{
    if fields.len() == 0 {
        0
    } else {
        count_named(fields.drop_last(), name) + if header::field_name(fields.last()) == name {
            1nat
        } else {
            0nat
        }
    }
}

/// The header fields of a message.
pub open spec fn fields_of(raw: Seq<u8>) -> Seq<Seq<u8>> {
    header::split_fields(header::header_block(raw))
}

/// Fields of which the last one has the line ending that it may lack.
pub open spec fn with_last_line_ended(fields: Seq<Seq<u8>>, ending: Seq<u8>) -> Seq<Seq<u8>> {
    if fields.len() == 0 {
        fields
    } else {
        fields.drop_last().push(
            fields.last() + rewrite::line_break(fields.last(), ending),
        )
    }
}

/// The fields that the rewritten message is to have: those that stay, each as
/// it was or as it is rewritten, and the `Reply-To` that is added, on a line of
/// its own.
pub open spec fn outgoing_fields(
    raw: Seq<u8>,
    from_email: Seq<char>,
    prefix: Option<Seq<char>>,
) -> Seq<Seq<u8>> {
    let fields = fields_of(raw);
    let ending = rewrite::line_ending(header::header_block(raw));
    let kept = nonempty(rewrite::rewritten_fields(fields, from_email, prefix, ending));
    match rewrite::added_reply_to(fields, ending) {
        Some(field) => with_last_line_ended(kept, ending).push(field),
        None => kept,
    }
}

/// Neither the sender address nor the subject prefix holds a line feed.
pub open spec fn no_line_feed(from_email: Seq<char>, prefix: Option<Seq<char>>) -> bool {
    &&& !utf8::encode_utf8(from_email).contains(LF)
    &&& prefix is Some ==> !utf8::encode_utf8(prefix->0).contains(LF)
}

proof fn lemma_empty_name()
    ensures
        header::field_name(Seq::empty()) == Seq::<char>::empty(),
{
    let line = Seq::<u8>::empty().take(header::line_end(Seq::<u8>::empty(), 0));
    assert(line =~= Seq::<u8>::empty());
}

/// Every part that is not empty ends with a line feed.
spec fn ended(parts: Seq<Seq<u8>>) -> bool {
    forall|i: int|
        0 <= i < parts.len() && (#[trigger] parts[i]).len() > 0 ==> parts[i].last() == LF
}

/// The parts that are not empty are sound fields, to be put together.
spec fn sound_parts(parts: Seq<Seq<u8>>) -> bool {
    &&& forall|i: int|
        0 <= i < parts.len() && (#[trigger] parts[i]).len() > 0 ==> sound_field(parts[i])
    &&& forall|i: int|
        0 <= i < parts.len() - 1 && (#[trigger] parts[i]).len() > 0 ==> parts[i].last() == LF
    &&& forall|i: int|
        0 < i < parts.len() && (#[trigger] parts[i]).len() > 0 ==> !scan::is_blank(parts[i][0])
}

/// Leaving out empty parts changes neither what the others make together nor
/// how many of them have a given name.
proof fn lemma_nonempty(parts: Seq<Seq<u8>>, name: Seq<char>)
    requires
        name.len() > 0,
        sound_parts(parts),
    ensures
        sound_fields(nonempty(parts)),
        ended(parts) ==> ended(nonempty(parts)),
        nonempty(parts).len() <= parts.len(),
        header::concat(nonempty(parts)) == header::concat(parts),
        count_named(nonempty(parts), name) == count_named(parts, name),
    decreases parts.len(),
{
    if parts.len() > 0 {
        let init = parts.drop_last();
        let last = parts.last();
        assert(sound_parts(init)) by {
            assert forall|i: int|
                0 <= i < init.len() && (#[trigger] init[i]).len() > 0 implies sound_field(
                init[i],
            ) by {
                assert(init[i] == parts[i]);
            }
            assert forall|i: int|
                0 < i < init.len() && (#[trigger] init[i]).len() > 0 implies !scan::is_blank(
                init[i][0],
            ) by {
                assert(init[i] == parts[i]);
            }
            assert forall|i: int| 0 <= i < init.len() && (#[trigger] init[i]).len() > 0 implies init[i].last()
                == LF by {
                assert(init[i] == parts[i]);
            }
        }
        lemma_nonempty(init, name);
        let kept = nonempty(parts);
        let before = nonempty(init);
        if last.len() > 0 {
            assert(last == parts[parts.len() - 1]);
            assert(kept.drop_last() =~= before);
            assert(kept.last() == last);
            assert forall|i: int| 0 <= i < kept.len() implies sound_field(#[trigger] kept[i]) by {
                if i < kept.len() - 1 {
                    assert(kept[i] == before[i]);
                }
            }
            assert forall|i: int| 0 <= i < kept.len() - 1 implies (#[trigger] kept[i]).last()
                == LF by {
                assert(kept[i] == before[i]);
                assert(sound_field(before[i]));
            }
            assert forall|i: int| 0 < i < kept.len() implies !scan::is_blank(
                (#[trigger] kept[i])[0],
            ) by {
                if i < kept.len() - 1 {
                    assert(kept[i] == before[i]);
                }
            }
        } else {
            lemma_empty_name();
            assert(last =~= Seq::<u8>::empty());
            assert(header::concat(parts) =~= header::concat(init));
        }
    }
}

proof fn lemma_count_same(a: Seq<Seq<u8>>, b: Seq<Seq<u8>>, name: Seq<char>)
    requires
        a.len() == b.len(),
        forall|i: int|
            0 <= i < a.len() ==> ((#[trigger] header::field_name(a[i]) == name)
                == (header::field_name(b[i]) == name)),
    ensures
        count_named(a, name) == count_named(b, name),
    decreases a.len(),
{
    if a.len() > 0 {
        assert forall|i: int| 0 <= i < a.drop_last().len() implies ((#[trigger] header::field_name(
            a.drop_last()[i],
        ) == name) == (header::field_name(b.drop_last()[i]) == name)) by {
            assert(a.drop_last()[i] == a[i]);
            assert(b.drop_last()[i] == b[i]);
        }
        lemma_count_same(a.drop_last(), b.drop_last(), name);
        assert(header::field_name(a[a.len() - 1]) == header::field_name(a.last()));
    }
}

proof fn lemma_count_none(fields: Seq<Seq<u8>>, name: Seq<char>)
    requires
        forall|i: int|
            0 <= i < fields.len() ==> #[trigger] header::field_name(fields[i]) != name,
    ensures
        count_named(fields, name) == 0,
    decreases fields.len(),
{
    if fields.len() > 0 {
        assert forall|i: int| 0 <= i < fields.drop_last().len() implies #[trigger] header::field_name(
            fields.drop_last()[i],
        ) != name by {
            assert(fields.drop_last()[i] == fields[i]);
        }
        lemma_count_none(fields.drop_last(), name);
        assert(header::field_name(fields[fields.len() - 1]) != name);
    }
}

proof fn lemma_count_one(fields: Seq<Seq<u8>>, name: Seq<char>, k: int)
    requires
        0 <= k < fields.len(),
        forall|i: int|
            0 <= i < fields.len() ==> ((#[trigger] header::field_name(fields[i]) == name) == (i
                == k)),
    ensures
        count_named(fields, name) == 1,
    decreases fields.len(),
{
    let init = fields.drop_last();
    assert(header::field_name(fields[fields.len() - 1]) == header::field_name(fields.last()));
    if k == fields.len() - 1 {
        assert forall|i: int| 0 <= i < init.len() implies #[trigger] header::field_name(init[i])
            != name by {
            assert(init[i] == fields[i]);
        }
        lemma_count_none(init, name);
    } else {
        assert forall|i: int| 0 <= i < init.len() implies ((#[trigger] header::field_name(init[i])
            == name) == (i == k)) by {
            assert(init[i] == fields[i]);
        }
        lemma_count_one(init, name, k);
    }
}

proof fn lemma_count_push(fields: Seq<Seq<u8>>, last: Seq<u8>, name: Seq<char>)
    ensures
        count_named(fields.push(last), name) == count_named(fields, name) + if header::field_name(
            last,
        ) == name {
            1nat
        } else {
            0nat
        },
{
    assert(fields.push(last).drop_last() =~= fields);
}

/// The line break behind sound fields is the one behind the last of them.
proof fn lemma_line_break_of_last(fields: Seq<Seq<u8>>, ending: Seq<u8>)
    requires
        sound_fields(fields),
        fields.len() > 0,
    ensures
        rewrite::line_break(header::concat(fields), ending) == rewrite::line_break(
            fields.last(),
            ending,
        ),
{
    let init = fields.drop_last();
    let last = fields.last();
    let all = header::concat(fields);
    assert(sound_field(fields[fields.len() - 1]));
    assert(sound_fields(init)) by {
        assert forall|i: int| 0 <= i < init.len() implies sound_field(#[trigger] init[i]) by {
            assert(init[i] == fields[i]);
        }
        assert forall|i: int| 0 <= i < init.len() - 1 implies (#[trigger] init[i]).last()
            == LF by {
            assert(init[i] == fields[i]);
        }
        assert forall|i: int| 0 < i < init.len() implies !scan::is_blank(
            (#[trigger] init[i])[0],
        ) by {
            assert(init[i] == fields[i]);
        }
    }
    lemma_sound_fields_split(init);
    if init.len() > 0 {
        assert(init.last() == fields[fields.len() - 2]);
    }
    let p = all.len() - 1;
    let q = last.len() - 1;
    assert(all.last() == last.last());
    assert((all + ending)[p] == (last + ending)[q]);
    if ending.len() > 0 {
        assert((all + ending)[p + 1] == (last + ending)[q + 1]);
    }
    if q > 0 {
        assert((all + ending)[p - 1] == (last + ending)[q - 1]);
    } else if p > 0 {
        assert((all + ending)[p - 1] == header::concat(init).last());
    }
    assert(header::blank_line_at(all + ending, p) == header::blank_line_at(last + ending, q));
}

/// A sound field that takes the line ending it lacks stays a sound field of the
/// same name.
proof fn lemma_ended_field(field: Seq<u8>, ending: Seq<u8>)
    requires
        sound_field(field),
        ending == seq![LF] || ending == seq![CR, LF],
    ensures
        ({
            let out = field + rewrite::line_break(field, ending);
            &&& sound_field(out)
            &&& out.last() == LF
            &&& out[0] == field[0]
            &&& header::field_name(out) == header::field_name(field)
        }),
{
    let added = rewrite::line_break(field, ending);
    let out = field + added;
    let n = field.len() as int;
    if field.last() == LF {
        assert(out =~= field);
    } else {
        assert(added == seq![LF] || added == seq![CR, LF]);
        assert forall|j: int| 0 <= j < n implies out[j] == field[j] by {}
        assert forall|j: int| n <= j < out.len() - 1 implies out[j] == CR by {}
        assert(out.last() == LF);
        assert forall|i: int| 0 <= i < out.len() implies !header::blank_line_at(out, i) by {
            if i < n - 1 {
                assert(!header::blank_line_at(field, i));
            } else if i == n - 1 {
                if added != seq![CR, LF] || ending == seq![CR, LF] {
                    assert(added == ending);
                }
            }
        }
        assert forall|j: int| 1 <= j < out.len() implies !header::field_ends_at(out, j) by {
            if j < n {
                assert(!header::field_ends_at(field, j));
            }
        }
        search::lemma_next_index(field, LF, 0);
        search::lemma_next_index(out, LF, 0);
        let line = field.take(header::line_end(field, 0));
        let out_line = out.take(header::line_end(out, 0));
        match search::first_index(field, LF) {
            Some(i) => {
                search::lemma_next_index_is(out, LF, 0, i);
                assert(out_line =~= line);
            },
            None => {
                search::lemma_next_index_is(out, LF, 0, out.len() - 1);
                assert(line =~= field);
                assert(out_line =~= out);
                search::lemma_next_index(line, COLON, 0);
                match search::first_index(line, COLON) {
                    Some(colon) => search::lemma_next_index_is(out_line, COLON, 0, colon),
                    None => search::lemma_next_index_none(out_line, COLON, 0),
                }
            },
        }
        search::lemma_next_index(line, COLON, 0);
        match header::name_colon(field) {
            Some(colon) => {
                assert(out.take(colon) =~= field.take(colon));
            },
            None => {},
        }
    }
}

/// Sound fields of which the last takes the line ending that it lacks are sound
/// fields that all have one, with the same names.
proof fn lemma_last_line_ended(fields: Seq<Seq<u8>>, ending: Seq<u8>, name: Seq<char>)
    requires
        sound_fields(fields),
        ending == seq![LF] || ending == seq![CR, LF],
    ensures
        ({
            let out = with_last_line_ended(fields, ending);
            &&& out.len() == fields.len()
            &&& sound_fields(out)
            &&& ended(out)
            &&& header::concat(out) == header::concat(fields) + rewrite::line_break(
                header::concat(fields),
                ending,
            )
            &&& count_named(out, name) == count_named(fields, name)
        }),
{
    let out = with_last_line_ended(fields, ending);
    if fields.len() > 0 {
        let n = fields.len() - 1;
        assert(sound_field(fields[n]));
        lemma_ended_field(fields.last(), ending);
        lemma_line_break_of_last(fields, ending);
        assert forall|i: int| 0 <= i < n implies out[i] == fields[i] by {}
        assert forall|i: int| 0 <= i < out.len() implies sound_field(#[trigger] out[i]) by {
            if i < n {
                assert(sound_field(fields[i]));
            }
        }
        assert forall|i: int| 0 <= i < out.len() implies (#[trigger] out[i]).last() == LF by {
            if i < n {
                assert(fields[i].last() == LF);
            }
        }
        assert forall|i: int| 0 < i < out.len() implies !scan::is_blank(
            (#[trigger] out[i])[0],
        ) by {
            assert(!scan::is_blank(fields[i][0]));
        }
        assert(out.drop_last() =~= fields.drop_last());
        assert(header::concat(out) =~= header::concat(fields) + rewrite::line_break(
            header::concat(fields),
            ending,
        ));
        assert forall|i: int| 0 <= i < out.len() implies ((#[trigger] header::field_name(out[i])
            == name) == (header::field_name(fields[i]) == name)) by {}
        lemma_count_same(out, fields, name);
    } else {
        assert(header::concat(out) =~= header::concat(fields) + rewrite::line_break(
            header::concat(fields),
            ending,
        ));
    }
}

/// The header block of a message holds no blank line.
pub proof fn lemma_header_has_no_blank_line(raw: Seq<u8>)
    ensures
        no_blank_line(header::header_block(raw)),
{
    header::lemma_next_blank_line(raw, 0);
    let block = header::header_block(raw);
    assert forall|i: int| 0 <= i < block.len() implies !header::blank_line_at(block, i) by {
        assert(!header::blank_line_at(raw, i));
    }
}

/// What each field becomes is empty or a sound field, and has the name that the
/// rewriting gives it.
pub proof fn lemma_rewritten_field(
    raw: Seq<u8>,
    i: int,
    from_email: Seq<char>,
    prefix: Option<Seq<char>>,
)
    requires
        no_line_feed(from_email, prefix),
        0 <= i < fields_of(raw).len(),
    ensures
        ({
            let fields = fields_of(raw);
            let ending = rewrite::line_ending(header::header_block(raw));
            let part = rewrite::rewritten_field(fields, i, from_email, prefix, ending);
            let names = rewrite::field_names(fields);
            &&& part.len() > 0 ==> sound_field(part)
            &&& part.len() > 0 && (i < fields.len() - 1 || whole_lines(header::header_block(raw)))
                ==> part.last() == LF
            &&& part.len() > 0 && i > 0 ==> !scan::is_blank(part[0])
            &&& header::field_name(part) == if rewrite::is_removed(names[i]) || (names[i]
                == "from"@ && search::first_index(names, "from"@) != Some(i)) {
                Seq::<char>::empty()
            } else {
                names[i]
            }
        }),
{
    let block = header::header_block(raw);
    let fields = fields_of(raw);
    let ending = rewrite::line_ending(block);
    lemma_header_has_no_blank_line(raw);
    lemma_fields_sound(block);
    lemma_line_ending(block);
    lemma_empty_name();
    assert(sound_field(fields[i]));
    if i > 0 {
        assert(!scan::is_blank(fields[i][0]));
    }
    if i < fields.len() - 1 {
        assert(fields[i].last() == LF);
    } else {
        assert(fields[i] == fields.last());
    }
    lemma_rewritten_from_field(rewrite::field_value(fields[i]), from_email, ending);
    if rewrite::field_names(fields)[i] == "subject"@ && prefix is Some {
        reveal_strlit("subject");
        lemma_prefixed_subject_field(fields[i], prefix->0);
    }
}

/// What the fields become, together.
proof fn lemma_rewritten_parts(raw: Seq<u8>, from_email: Seq<char>, prefix: Option<Seq<char>>)
    requires
        no_line_feed(from_email, prefix),
    ensures
        sound_parts(
            rewrite::rewritten_fields(
                fields_of(raw),
                from_email,
                prefix,
                rewrite::line_ending(header::header_block(raw)),
            ),
        ),
{
    let fields = fields_of(raw);
    let ending = rewrite::line_ending(header::header_block(raw));
    let parts = rewrite::rewritten_fields(fields, from_email, prefix, ending);
    assert forall|i: int| 0 <= i < parts.len() && (#[trigger] parts[i]).len() > 0 implies sound_field(
        parts[i],
    ) by {
        lemma_rewritten_field(raw, i, from_email, prefix);
    }
    assert forall|i: int| 0 < i < parts.len() && (#[trigger] parts[i]).len() > 0 implies !scan::is_blank(
        parts[i][0],
    ) by {
        lemma_rewritten_field(raw, i, from_email, prefix);
    }
    assert forall|i: int|
        0 <= i < parts.len() - 1 && (#[trigger] parts[i]).len() > 0 implies parts[i].last()
        == LF by {
        lemma_rewritten_field(raw, i, from_email, prefix);
    }
}

/// The rewritten message, read again, has the body and the separator of the
/// inbound one, and in its header block exactly the fields that it is to have,
/// each a field of its own. It holds of every message, for a sender address and
/// a subject prefix without line feeds.
pub proof fn law_rewritten_message_reads_back(
    raw: Seq<u8>,
    from_email: Seq<char>,
    prefix: Option<Seq<char>>,
)
    requires
        no_line_feed(from_email, prefix),
    ensures
        ({
            let out = rewrite::rewritten(raw, from_email, prefix);
            &&& fields_of(out) == outgoing_fields(raw, from_email, prefix)
            &&& header::separator(out) == header::separator(raw)
            &&& header::body(out) == header::body(raw)
        }),
{
    let block = header::header_block(raw);
    let fields = fields_of(raw);
    let ending = rewrite::line_ending(block);
    let parts = rewrite::rewritten_fields(fields, from_email, prefix, ending);
    let outgoing = outgoing_fields(raw, from_email, prefix);
    let new_header = rewrite::rewritten_header(fields, from_email, prefix, ending);
    let out = rewrite::rewritten(raw, from_email, prefix);

    lemma_rewritten_parts(raw, from_email, prefix);
    reveal_strlit("from");
    lemma_nonempty(parts, "from"@);
    let kept = nonempty(parts);
    assert(sound_fields(outgoing) && header::concat(outgoing) == new_header) by {
        match rewrite::added_reply_to(fields, ending) {
            Some(field) => {
                let names = rewrite::field_names(fields);
                let from = search::first_index(names, "from"@)->0;
                lemma_line_ending(block);
                lemma_reply_to_field(rewrite::field_value(fields[from]), ending);
                lemma_last_line_ended(kept, ending, "from"@);
                let lines = with_last_line_ended(kept, ending);
                assert(outgoing.drop_last() =~= lines);
                assert(outgoing.last() == field);
                assert forall|i: int| 0 <= i < outgoing.len() implies sound_field(
                    #[trigger] outgoing[i],
                ) by {
                    if i < lines.len() {
                        assert(outgoing[i] == lines[i]);
                    }
                }
                assert forall|i: int| 0 <= i < outgoing.len() - 1 implies (
                #[trigger] outgoing[i]).last() == LF by {
                    assert(outgoing[i] == lines[i]);
                    assert(sound_field(lines[i]));
                }
                assert forall|i: int| 0 < i < outgoing.len() implies !scan::is_blank(
                    (#[trigger] outgoing[i])[0],
                ) by {
                    if i < lines.len() {
                        assert(outgoing[i] == lines[i]);
                    }
                }
            },
            None => {},
        }
    }
    lemma_sound_fields_split(outgoing);
    assert(header::split_fields(new_header) == outgoing);

    // The blank line, if any, is the first one of the rewritten message too.
    header::lemma_message_parts(raw);
    header::lemma_next_blank_line(raw, 0);
    if header::next_blank_line(raw, 0) is Some {
        assert(ended(kept)) by {
            assert forall|i: int|
                0 <= i < parts.len() && (#[trigger] parts[i]).len() > 0 implies parts[i].last()
                == LF by {
                lemma_rewritten_field(raw, i, from_email, prefix);
            }
        }
        if outgoing.len() > 0 {
            assert(sound_field(outgoing[outgoing.len() - 1]));
            assert(outgoing.last().last() == LF) by {
                if rewrite::added_reply_to(fields, ending) is None {
                    assert(kept[kept.len() - 1] == outgoing.last());
                }
            }
        }
        assert(whole_lines(new_header));
    }
    let tail = header::separator(raw) + header::body(raw);
    let n = new_header.len() as int;
    let end = header::header_end(raw);
    assert(tail =~= raw.skip(end));
    assert(out =~= new_header + tail);
    assert forall|i: int| 0 <= i < n implies !header::blank_line_at(out, i) by {
        assert(!header::blank_line_at(new_header, i));
        assert(out[i] == new_header[i]);
        if i > 0 {
            assert(out[i - 1] == new_header[i - 1]);
        }
        if i + 1 < n {
            assert(out[i + 1] == new_header[i + 1]);
        }
    }
    header::lemma_next_blank_line(out, 0);
    match header::next_blank_line(raw, 0) {
        Some(i) => {
            assert(out[n] == raw[end]);
            if end + 1 < raw.len() {
                assert(out[n + 1] == raw[end + 1]);
            }
            assert(header::blank_line_at(out, n)) by {
                if n > 0 {
                    assert(out[n - 1] == new_header.last());
                }
            }
            assert(header::next_blank_line(out, 0) == Some(n));
        },
        None => {
            assert(tail =~= Seq::<u8>::empty());
            assert(out =~= new_header);
            assert(header::next_blank_line(out, 0) is None);
        },
    }
    assert(header::header_block(out) =~= new_header);
    assert(header::separator(out) =~= header::separator(raw));
    assert(header::body(out) =~= header::body(raw));
}

/// How many fields of each name the rewritten message has: exactly one `From`
/// when the inbound message has any, and none otherwise; none of the removed
/// fields; one `Reply-To` when it is added, and otherwise as many as there
/// were; of every other name as many as there were.
pub proof fn law_rewritten_field_counts(
    raw: Seq<u8>,
    from_email: Seq<char>,
    prefix: Option<Seq<char>>,
    name: Seq<char>,
)
    requires
        no_line_feed(from_email, prefix),
        name.len() > 0,
    ensures
        ({
            let before = fields_of(raw);
            let after = fields_of(rewrite::rewritten(raw, from_email, prefix));
            let ending = rewrite::line_ending(header::header_block(raw));
            count_named(after, name) == if rewrite::is_removed(name) {
                0
            } else if name == "from"@ {
                if rewrite::has_from(raw) {
                    1
                } else {
                    0
                }
            } else if name == "reply-to"@ && rewrite::added_reply_to(before, ending) is Some {
                1
            } else {
                count_named(before, name)
            }
        }),
{
    law_rewritten_message_reads_back(raw, from_email, prefix);
    rewrite::lemma_header_names_differ();
    let block = header::header_block(raw);
    let fields = fields_of(raw);
    let names = rewrite::field_names(fields);
    let ending = rewrite::line_ending(block);
    let parts = rewrite::rewritten_fields(fields, from_email, prefix, ending);
    lemma_rewritten_parts(raw, from_email, prefix);
    lemma_nonempty(parts, name);
    search::lemma_next_index(names, "from"@, 0);
    assert forall|i: int| 0 <= i < parts.len() implies #[trigger] header::field_name(parts[i])
        == if rewrite::is_removed(names[i]) || (names[i] == "from"@ && search::first_index(
        names,
        "from"@,
    ) != Some(i)) {
        Seq::<char>::empty()
    } else {
        names[i]
    } by {
        lemma_rewritten_field(raw, i, from_email, prefix);
    }
    let kept = nonempty(parts);
    if rewrite::is_removed(name) {
        lemma_count_none(parts, name);
    } else if name == "from"@ {
        if names.contains("from"@) {
            let k = search::first_index(names, "from"@)->0;
            lemma_count_one(parts, name, k);
        } else {
            assert forall|i: int| 0 <= i < parts.len() implies #[trigger] header::field_name(
                parts[i],
            ) != name by {
                assert(names[i] != "from"@);
            }
            lemma_count_none(parts, name);
        }
    } else {
        assert forall|i: int| 0 <= i < parts.len() implies ((#[trigger] header::field_name(parts[i])
            == name) == (header::field_name(fields[i]) == name)) by {
            assert(names[i] == header::field_name(fields[i]));
        }
        lemma_count_same(parts, fields, name);
    }
    match rewrite::added_reply_to(fields, ending) {
        Some(field) => {
            let from = search::first_index(names, "from"@)->0;
            lemma_line_ending(block);
            lemma_reply_to_field(rewrite::field_value(fields[from]), ending);
            lemma_last_line_ended(kept, ending, name);
            lemma_count_push(with_last_line_ended(kept, ending), field, name);
            if name == "reply-to"@ {
                assert forall|i: int| 0 <= i < fields.len() implies #[trigger] header::field_name(
                    fields[i],
                ) != name by {
                    assert(names[i] == header::field_name(fields[i]));
                }
                lemma_count_none(fields, name);
            }
        },
        None => {},
    }
}

// ---------------------------------------------------------------------------
// What the synthesized fields say
// ---------------------------------------------------------------------------

/// A line without a terminator inside unfolds to itself, its ending dropped.
proof fn lemma_unfolded_line(line: Seq<u8>, ending: Seq<u8>)
    requires
        !line.contains(CR),
        !line.contains(LF),
        ending == seq![LF] || ending == seq![CR, LF],
    ensures
        rewrite::unfolded(line + ending) == line,
    decreases line.len(),
{
    let s = line + ending;
    if line.len() == 0 {
        assert(s =~= ending);
        let rest = s.skip(rewrite::terminator_len(s));
        assert(rest =~= Seq::<u8>::empty());
        assert(rewrite::unfolded(rest) =~= Seq::<u8>::empty());
        assert(rewrite::unfolded(s) =~= line);
    } else {
        let tail = line.drop_first();
        assert(line.contains(line[0]));
        assert forall|i: int| 0 <= i < tail.len() implies tail[i] != CR && tail[i] != LF by {
            assert(tail[i] == line[i + 1]);
            assert(line.contains(line[i + 1]));
        }
        lemma_unfolded_line(tail, ending);
        assert(s.drop_first() =~= tail + ending);
        assert(s[0] == line[0]);
        assert(rewrite::unfolded(s) =~= line);
    }
}

/// The value of a field that starts with a name and a colon is what follows.
pub proof fn lemma_field_value(start: Seq<u8>, rest: Seq<u8>)
    requires
        !start.contains(COLON),
    ensures
        rewrite::field_value(start + seq![COLON] + rest) == rest,
{
    let field = start + seq![COLON] + rest;
    let colon = start.len() as int;
    assert forall|j: int| 0 <= j < colon implies field[j] != COLON by {
        assert(field[j] == start[j]);
    }
    search::lemma_next_index_is(field, COLON, 0, colon);
    assert(field.skip(colon + 1) =~= rest);
}

/// The `Reply-To` that is added says what the inbound `From` said: unfolded, its
/// value is the unfolded `From` value.
pub proof fn law_reply_to_repeats_from(value: Seq<u8>, block: Seq<u8>)
    ensures
        rewrite::unfolded(
            rewrite::field_value(rewrite::reply_to_field(value, rewrite::line_ending(block))),
        ) == rewrite::unfolded(value),
{
    let ending = rewrite::line_ending(block);
    lemma_line_ending(block);
    lemma_reply_to_bytes();
    law_unfolded_is_one_line(value);
    let start = utf8::encode_utf8("Reply-To"@);
    let line = rewrite::unfolded(value);
    assert(rewrite::reply_to_field(value, ending) =~= start + seq![COLON] + (line + ending));
    lemma_field_value(start, line + ending);
    lemma_unfolded_line(line, ending);
}

/// What trimming leaves starts and ends with something else than white space.
proof fn lemma_trimmed_ascii_edges(s: Seq<u8>)
    ensures
        scan::trimmed_ascii(s).len() > 0 ==> !scan::is_ascii_space(scan::trimmed_ascii(s)[0])
            && !scan::is_ascii_space(scan::trimmed_ascii(s).last()),
{
    lemma_trim_ascii_start_edge(s);
    lemma_trim_ascii_end_edge(scan::trim_ascii_start(s));
}

proof fn lemma_trim_ascii_start_edge(s: Seq<u8>)
    ensures
        scan::trim_ascii_start(s).len() > 0 ==> !scan::is_ascii_space(scan::trim_ascii_start(s)[0]),
    decreases s.len(),
{
    if s.len() > 0 && scan::is_ascii_space(s[0]) {
        lemma_trim_ascii_start_edge(s.drop_first());
    }
}

proof fn lemma_trim_ascii_end_edge(s: Seq<u8>)
    ensures
        scan::trim_ascii_end(s).len() > 0 ==> !scan::is_ascii_space(scan::trim_ascii_end(s).last())
            && scan::trim_ascii_end(s)[0] == s[0],
    decreases s.len(),
{
    if s.len() > 0 && scan::is_ascii_space(s.last()) {
        lemma_trim_ascii_end_edge(s.drop_last());
    }
}

/// Trimming the end takes white space alone: all up to a byte that is none
/// stays.
pub proof fn lemma_trim_ascii_end_keeps(s: Seq<u8>, i: int)
    requires
        0 <= i < s.len(),
        !scan::is_ascii_space(s[i]),
    ensures
        i < scan::trim_ascii_end(s).len() <= s.len(),
        scan::trim_ascii_end(s) == s.take(scan::trim_ascii_end(s).len() as int),
    decreases s.len(),
{
    if scan::is_ascii_space(s.last()) {
        let init = s.drop_last();
        lemma_trim_ascii_end_keeps(init, i);
        let n = scan::trim_ascii_end(s).len() as int;
        assert(init.take(n) =~= s.take(n));
    } else {
        assert(s.take(s.len() as int) =~= s);
    }
}

/// Text without a terminator stays as it is in front of what is unfolded.
pub proof fn lemma_unfolded_after(line: Seq<u8>, rest: Seq<u8>)
    requires
        !line.contains(CR),
        !line.contains(LF),
    ensures
        rewrite::unfolded(line + rest) == line + rewrite::unfolded(rest),
    decreases line.len(),
{
    if line.len() == 0 {
        assert(line + rest =~= rest);
        assert(line + rewrite::unfolded(rest) =~= rewrite::unfolded(rest));
    } else {
        let tail = line.drop_first();
        let s = line + rest;
        assert(line.contains(line[0]));
        assert forall|i: int| 0 <= i < tail.len() implies tail[i] != CR && tail[i] != LF by {
            assert(tail[i] == line[i + 1]);
            assert(line.contains(line[i + 1]));
        }
        lemma_unfolded_after(tail, rest);
        assert(s.drop_first() =~= tail + rest);
        assert(s[0] == line[0]);
        assert(rewrite::unfolded(s) =~= line + rewrite::unfolded(rest));
    }
}

/// The rewritten `From` keeps the display name: read again, it has the display
/// name of the value that it replaces, or none if that has none. In the latter
/// case the sender address is all that it holds, and must not read as a display
/// name and an address itself.
pub proof fn law_display_name_is_preserved(value: Seq<u8>, from_email: Seq<char>, block: Seq<u8>)
    requires
        rewrite::display_name(value).len() > 0 || rewrite::display_name(
            utf8::encode_utf8(from_email) + rewrite::line_ending(block),
        ).len() == 0,
    ensures
        rewrite::display_name(
            rewrite::field_value(
                rewrite::rewritten_from(value, from_email, rewrite::line_ending(block)),
            ),
        ) == rewrite::display_name(value),
{
    let ending = rewrite::line_ending(block);
    let email = utf8::encode_utf8(from_email);
    let name = rewrite::display_name(value);
    let field = rewrite::rewritten_from(value, from_email, ending);
    lemma_from_bytes();
    lemma_display_name_one_line(value, CR);
    lemma_display_name_one_line(value, LF);
    let start = utf8::encode_utf8("From"@);
    let angle_part = seq![SPACE, LESS_THAN];
    if name.len() == 0 {
        let rest = email + ending;
        assert(field =~= start + seq![COLON] + (seq![SPACE] + rest));
        lemma_field_value(start, seq![SPACE] + rest);
        lemma_unfolded_after(seq![SPACE], rest);
        let line = rewrite::unfolded(seq![SPACE] + rest);
        assert(line.drop_first() =~= rewrite::unfolded(rest));
        assert(scan::trimmed_ascii(line) == scan::trimmed_ascii(rewrite::unfolded(rest)));
        assert(rewrite::display_name(seq![SPACE] + rest) =~= name);
    } else {
        let rest = email + seq![GREATER_THAN] + ending;
        let head = seq![SPACE] + name + angle_part;
        assert(field =~= start + seq![COLON] + (head + rest));
        lemma_field_value(start, head + rest);
        lemma_add_contains(seq![SPACE], name, CR);
        lemma_add_contains(seq![SPACE] + name, angle_part, CR);
        lemma_add_contains(seq![SPACE], name, LF);
        lemma_add_contains(seq![SPACE] + name, angle_part, LF);
        lemma_unfolded_after(head, rest);
        let line = rewrite::unfolded(head + rest);

        let inbound = scan::trimmed_ascii(rewrite::unfolded(value));
        search::lemma_next_index(inbound, LESS_THAN, 0);
        let cut = inbound.take(search::first_index(inbound, LESS_THAN)->0);
        lemma_trimmed_ascii_edges(cut);
        assert(!cut.contains(LESS_THAN)) by {
            assert forall|i: int| 0 <= i < cut.len() implies cut[i] != LESS_THAN by {
                assert(cut[i] == inbound[i]);
            }
        }
        scan::lemma_trimmed_ascii_contains(cut, LESS_THAN);

        // Trimming takes the leading space and stops at the angle bracket.
        let n = name.len() as int;
        let address = line.drop_first();
        assert(address =~= name + angle_part + rewrite::unfolded(rest));
        assert(address[0] == name[0]);
        assert(address[n + 1] == LESS_THAN);
        assert(line[0] == SPACE);
        assert(scan::trim_ascii_start(address) == address);
        assert(scan::trim_ascii_start(line) == scan::trim_ascii_start(line.drop_first()));
        lemma_trim_ascii_end_keeps(address, n + 1);
        let whole = scan::trimmed_ascii(line);
        assert forall|i: int| 0 <= i < n + 1 implies whole[i] != LESS_THAN by {
            assert(whole[i] == address[i]);
            if i < n {
                assert(address[i] == name[i]);
                assert(name.contains(name[i]));
            } else {
                assert(address[i] == SPACE);
            }
        }
        assert(whole[n + 1] == LESS_THAN);
        search::lemma_next_index_is(whole, LESS_THAN, 0, n + 1);
        let before = whole.take(n + 1);
        assert(before =~= name.push(SPACE)) by {
            assert forall|i: int| 0 <= i < n implies before[i] == name[i] by {
                assert(whole[i] == address[i]);
            }
            assert(whole[n] == address[n]);
        }
        assert(before.drop_last() =~= name);
        assert(scan::trim_ascii_start(before) == before);
        assert(scan::trim_ascii_end(before) == scan::trim_ascii_end(name));
        assert(scan::trim_ascii_end(name) == name);
        assert(scan::trimmed_ascii(before) == name);
    }
}

/// A name that is not UTF-8 holds a replacement character.
pub proof fn lemma_lossy_name(bytes: Seq<u8>)
    requires
        !utf8::valid_utf8(bytes),
    ensures
        header::name_text(bytes).contains('\u{fffd}'),
{
    let s = header::lossy_text(bytes);
    let at = header::lossy_parts(bytes).0.len() as int;
    assert(s[at] == '\u{fffd}');
    let bounds = text::lemma_trimmed(s);
    assert(text::trimmed(s)[at - bounds.0] == '\u{fffd}');
    assert(header::name_text(bytes)[at - bounds.0] == '\u{fffd}');
}

/// No name that the rewriting knows holds a replacement character.
proof fn lemma_known_names_are_ascii()
    ensures
        !"from"@.contains('\u{fffd}'),
        !"subject"@.contains('\u{fffd}'),
        forall|name: Seq<char>| #[trigger]
            rewrite::is_removed(name) ==> !name.contains('\u{fffd}') && name.len() > 0,
{
    reveal_strlit("from");
    reveal_strlit("subject");
    reveal_strlit("return-path");
    reveal_strlit("sender");
    reveal_strlit("message-id");
    reveal_strlit("dkim-signature");
}

/// A field that has no name, or one that is not UTF-8 or that the rewriting does
/// not know, stays as it is; and so does a `Subject` that is not the first one
/// or that no prefix is to go to.
pub proof fn law_other_fields_are_untouched(
    fields: Seq<Seq<u8>>,
    i: int,
    from_email: Seq<char>,
    prefix: Option<Seq<char>>,
    ending: Seq<u8>,
)
    requires
        0 <= i < fields.len(),
        ({
            let name = header::field_name(fields[i]);
            ||| header::name_colon(fields[i]) is None
            ||| !utf8::valid_utf8(fields[i].take(header::name_colon(fields[i])->0))
            ||| !rewrite::is_removed(name) && name != "from"@ && (name == "subject"@ ==> prefix
                is None || search::first_index(rewrite::field_names(fields), "subject"@) != Some(
                i,
            ))
        }),
    ensures
        rewrite::rewritten_field(fields, i, from_email, prefix, ending) == fields[i],
{
    lemma_known_names_are_ascii();
    assert(rewrite::field_names(fields)[i] == header::field_name(fields[i]));
    match header::name_colon(fields[i]) {
        Some(colon) => {
            if !utf8::valid_utf8(fields[i].take(colon)) {
                lemma_lossy_name(fields[i].take(colon));
            }
        },
        None => {
            reveal_strlit("from");
            reveal_strlit("subject");
            assert("from"@.len() > 0 && "subject"@.len() > 0);
        },
    }
}

// ---------------------------------------------------------------------------
// Reply-To, on a line of its own
// ---------------------------------------------------------------------------

/// A terminator at the end of a value is dropped when the value is unfolded.
proof fn lemma_unfolded_ending(value: Seq<u8>, ending: Seq<u8>)
    requires
        ending == seq![LF] || ending == seq![CR, LF],
    ensures
        rewrite::unfolded(value + ending) == rewrite::unfolded(value),
    decreases value.len(),
{
    let s = value + ending;
    if value.len() == 0 {
        assert(s =~= ending);
        assert(s.skip(rewrite::terminator_len(s)) =~= Seq::<u8>::empty());
        assert(rewrite::unfolded(Seq::<u8>::empty()) =~= Seq::<u8>::empty());
    } else if !scan::is_terminator(value[0]) {
        lemma_unfolded_ending(value.drop_first(), ending);
        assert(s.drop_first() =~= value.drop_first() + ending);
    } else if value =~= seq![CR] && ending == seq![LF] {
        assert(s.skip(2) =~= Seq::<u8>::empty());
        assert(value.skip(1) =~= Seq::<u8>::empty());
    } else {
        let n = rewrite::terminator_len(value);
        assert(rewrite::terminator_len(s) == n);
        let rest = value.skip(n);
        assert(s.skip(n) =~= rest + ending);
        lemma_blank_run_ending(rest, ending);
        scan::lemma_blank_run(rest);
        let blanks = scan::blank_run(rest) as int;
        assert(rest.skip(0) =~= rest);
        lemma_unfolded_ending(rest.skip(blanks), ending);
        assert((rest + ending).skip(blanks) =~= rest.skip(blanks) + ending);
    }
}

proof fn lemma_blank_run_ending(s: Seq<u8>, ending: Seq<u8>)
    requires
        ending == seq![LF] || ending == seq![CR, LF],
    ensures
        scan::blank_run(s + ending) == scan::blank_run(s),
    decreases s.len(),
{
    if s.len() > 0 {
        lemma_blank_run_ending(s.drop_first(), ending);
        assert((s + ending).drop_first() =~= s.drop_first() + ending);
    }
}

/// A field that takes the line ending it lacks keeps its value.
pub proof fn law_ended_line_keeps_its_value(field: Seq<u8>, block: Seq<u8>)
    ensures
        ({
            let ended = field + rewrite::line_break(field, rewrite::line_ending(block));
            rewrite::unfolded(rewrite::field_value(ended)) == rewrite::unfolded(
                rewrite::field_value(field),
            )
        }),
{
    let added = rewrite::line_break(field, rewrite::line_ending(block));
    let out = field + added;
    lemma_line_ending(block);
    search::lemma_next_index(field, COLON, 0);
    if added.len() == 0 {
        assert(out =~= field);
    } else {
        assert(added == seq![LF] || added == seq![CR, LF]);
        match search::first_index(field, COLON) {
            Some(colon) => {
                assert forall|j: int| 0 <= j < colon implies out[j] != COLON by {
                    assert(out[j] == field[j]);
                }
                search::lemma_next_index_is(out, COLON, 0, colon);
                assert(out.skip(colon + 1) =~= field.skip(colon + 1) + added);
                lemma_unfolded_ending(field.skip(colon + 1), added);
            },
            None => {
                assert forall|j: int| 0 <= j < out.len() implies out[j] != COLON by {
                    if j < field.len() {
                        assert(out[j] == field[j]);
                    }
                }
                search::lemma_next_index_none(out, COLON, 0);
                lemma_unfolded_ending(field, added);
            },
        }
    }
}

/// A message with a `From` that is not blank and without a `Reply-To` gets one:
/// it is the last field of the rewritten message and the only one of its name,
/// and says what that `From` said.
pub proof fn law_reply_to_is_added(
    raw: Seq<u8>,
    from_email: Seq<char>,
    prefix: Option<Seq<char>>,
    i: int,
)
    requires
        no_line_feed(from_email, prefix),
        search::first_index(rewrite::field_names(fields_of(raw)), "from"@) == Some(i),
        scan::trimmed_ascii(rewrite::unfolded(rewrite::field_value(fields_of(raw)[i]))).len() > 0,
        !rewrite::field_names(fields_of(raw)).contains("reply-to"@),
    ensures
        ({
            let after = fields_of(rewrite::rewritten(raw, from_email, prefix));
            &&& after.len() > 0
            &&& header::field_name(after.last()) == "reply-to"@
            &&& count_named(after, "reply-to"@) == 1
            &&& rewrite::unfolded(rewrite::field_value(after.last())) == rewrite::unfolded(
                rewrite::field_value(fields_of(raw)[i]),
            )
        }),
{
    let block = header::header_block(raw);
    let ending = rewrite::line_ending(block);
    let value = rewrite::field_value(fields_of(raw)[i]);
    reveal_strlit("reply-to");
    rewrite::lemma_header_names_differ();
    assert("reply-to"@.len() > 0);
    law_rewritten_message_reads_back(raw, from_email, prefix);
    law_rewritten_field_counts(raw, from_email, prefix, "reply-to"@);
    lemma_line_ending(block);
    lemma_reply_to_field(value, ending);
    law_reply_to_repeats_from(value, block);
}

// ---------------------------------------------------------------------------
// Rewriting again
// ---------------------------------------------------------------------------

/// Every line of `s` that ends within it ends with `\r\n`, or none does.
pub open spec fn uniform_endings(s: Seq<u8>, crlf: bool) -> bool {
    forall|j: int| 1 <= j < s.len() && #[trigger] s[j] == LF ==> (s[j - 1] == CR) == crlf
}

proof fn lemma_fields_uniform(s: Seq<u8>, crlf: bool)
    requires
        uniform_endings(s, crlf),
    ensures
        forall|i: int|
            0 <= i < header::split_fields(s).len() ==> uniform_endings(
                #[trigger] header::split_fields(s)[i],
                crlf,
            ),
    decreases s.len(),
{
    if s.len() > 0 {
        header::lemma_next_field_end(s, 1);
        let n = header::field_len(s);
        let first = s.take(n);
        let rest = s.skip(n);
        assert(uniform_endings(first, crlf));
        assert(uniform_endings(rest, crlf)) by {
            assert forall|j: int| 1 <= j < rest.len() && #[trigger] rest[j] == LF implies (rest[j
                - 1] == CR) == crlf by {
                assert(s[j + n] == LF);
                assert(s[j + n - 1] == rest[j - 1]);
            }
        }
        lemma_fields_uniform(rest, crlf);
        let fields = header::split_fields(s);
        assert forall|i: int| 0 <= i < fields.len() implies uniform_endings(
            #[trigger] fields[i],
            crlf,
        ) by {
            if i > 0 {
                assert(fields[i] == header::split_fields(rest)[i - 1]);
            }
        }
    }
}

/// The line ending of a sound field that ends its line, and whose lines all end
/// in the same way.
proof fn lemma_field_line_ending(field: Seq<u8>, crlf: bool)
    requires
        sound_field(field),
        field.last() == LF,
        uniform_endings(field, crlf),
    ensures
        rewrite::line_ending(field) == if crlf {
            seq![CR, LF]
        } else {
            seq![LF]
        },
{
    search::lemma_next_index(field, LF, 0);
    assert(field[field.len() - 1] == LF);
    assert(!header::blank_line_at(field, 0));
}

/// The line ending of fields is that of the first one.
proof fn lemma_first_line_ending(fields: Seq<Seq<u8>>)
    requires
        fields.len() > 0,
        fields[0].len() > 0,
        fields[0].last() == LF,
    ensures
        rewrite::line_ending(header::concat(fields)) == rewrite::line_ending(fields[0]),
{
    header::lemma_concat_first(fields);
    let first = fields[0];
    let all = header::concat(fields);
    search::lemma_next_index(first, LF, 0);
    assert(first[first.len() - 1] == LF);
    let i = search::first_index(first, LF)->0;
    assert forall|j: int| 0 <= j < i implies all[j] != LF by {
        assert(all[j] == first[j]);
    }
    assert(all[i] == first[i]);
    search::lemma_next_index_is(all, LF, 0, i);
    if i > 0 {
        assert(all[i - 1] == first[i - 1]);
    }
}

/// The line of a rewritten `From` ends with the given ending.
proof fn lemma_rewritten_from_uniform(value: Seq<u8>, from_email: Seq<char>, ending: Seq<u8>)
    requires
        !utf8::encode_utf8(from_email).contains(LF),
        !utf8::encode_utf8(from_email).contains(CR),
        ending == seq![LF] || ending == seq![CR, LF],
    ensures
        uniform_endings(
            rewrite::rewritten_from(value, from_email, ending),
            ending == seq![CR, LF],
        ),
{
    let email = utf8::encode_utf8(from_email);
    let name = rewrite::display_name(value);
    let field = rewrite::rewritten_from(value, from_email, ending);
    lemma_from_bytes();
    let start = utf8::encode_utf8("From"@) + seq![COLON, SPACE];
    lemma_display_name_one_line(value, LF);
    lemma_display_name_one_line(value, CR);
    let angle_part = seq![SPACE, LESS_THAN];
    let line = if name.len() == 0 {
        start + email
    } else {
        start + name + angle_part + email + seq![GREATER_THAN]
    };
    if name.len() == 0 {
        lemma_add_contains(start, email, LF);
        lemma_add_contains(start, email, CR);
    } else {
        lemma_add_contains(start, name, LF);
        lemma_add_contains(start + name, angle_part, LF);
        lemma_add_contains(start + name + angle_part, email, LF);
        lemma_add_contains(start + name + angle_part + email, seq![GREATER_THAN], LF);
        lemma_add_contains(start, name, CR);
        lemma_add_contains(start + name, angle_part, CR);
        lemma_add_contains(start + name + angle_part, email, CR);
        lemma_add_contains(start + name + angle_part + email, seq![GREATER_THAN], CR);
    }
    assert(field =~= line + ending);
    let n = line.len() as int;
    assert forall|j: int| 1 <= j < field.len() && #[trigger] field[j] == LF implies (field[j - 1]
        == CR) == (ending == seq![CR, LF]) by {
        if j < n {
            assert(field[j] == line[j]);
            assert(line.contains(line[j]));
        }
        assert(ending.len() == 1 || ending.len() == 2);
        if j == n {
            assert(field[j - 1] == line[n - 1]);
            assert(line.contains(line[n - 1]));
        }
        if j == n && ending.len() == 2 {
            assert(field[j] == ending[0]);
        }
    }
}

/// Unfolding brings in no byte but spaces.
proof fn lemma_unfolded_contains(value: Seq<u8>, byte: u8)
    requires
        byte != SPACE,
        !value.contains(byte),
    ensures
        !rewrite::unfolded(value).contains(byte),
    decreases value.len(),
{
    if value.len() > 0 {
        if !scan::is_terminator(value[0]) {
            let tail = value.drop_first();
            assert forall|i: int| 0 <= i < tail.len() implies tail[i] != byte by {
                assert(tail[i] == value[i + 1]);
            }
            lemma_unfolded_contains(tail, byte);
            lemma_prepend_contains(value[0], rewrite::unfolded(tail), byte);
        } else {
            let rest = value.skip(rewrite::terminator_len(value));
            assert forall|i: int| 0 <= i < rest.len() implies rest[i] != byte by {
                assert(rest[i] == value[i + rewrite::terminator_len(value)]);
            }
            let blanks = scan::blank_run(rest);
            if 0 < blanks <= rest.len() {
                let tail = rest.skip(blanks as int);
                assert forall|i: int| 0 <= i < tail.len() implies tail[i] != byte by {
                    assert(tail[i] == rest[i + blanks]);
                }
                lemma_unfolded_contains(tail, byte);
                lemma_prepend_contains(SPACE, rewrite::unfolded(tail), byte);
            } else {
                lemma_unfolded_contains(rest, byte);
            }
        }
    }
}

/// Text without an opening angle bracket has no display name.
pub proof fn lemma_no_display_name(value: Seq<u8>)
    requires
        !value.contains(LESS_THAN),
    ensures
        rewrite::display_name(value).len() == 0,
{
    lemma_unfolded_contains(value, LESS_THAN);
    let line = rewrite::unfolded(value);
    scan::lemma_trimmed_ascii_contains(line, LESS_THAN);
    search::lemma_next_index(scan::trimmed_ascii(line), LESS_THAN, 0);
}

/// Each part that is not empty is one of the parts.
pub proof fn lemma_nonempty_source(parts: Seq<Seq<u8>>, k: int) -> (i: int)
    requires
        0 <= k < nonempty(parts).len(),
    ensures
        0 <= i < parts.len(),
        nonempty(parts)[k] == parts[i],
        parts[i].len() > 0,
    decreases parts.len(),
{
    let init = parts.drop_last();
    if parts.last().len() > 0 && k == nonempty(parts).len() - 1 {
        parts.len() - 1
    } else {
        let i = lemma_nonempty_source(init, k);
        assert(init[i] == parts[i]);
        i
    }
}

/// Fields of which some have a name are counted.
proof fn lemma_count_at_least(fields: Seq<Seq<u8>>, name: Seq<char>, i: int, j: int)
    requires
        0 <= i <= j < fields.len(),
        header::field_name(fields[i]) == name,
        header::field_name(fields[j]) == name,
    ensures
        count_named(fields, name) >= if i == j {
            1int
        } else {
            2
        },
    decreases fields.len(),
{
    let init = fields.drop_last();
    if j < init.len() {
        lemma_count_at_least(init, name, i, j);
    } else if i < init.len() {
        lemma_count_at_least(init, name, i, i);
    }
}

/// Where a name is counted, a field has it.
proof fn lemma_count_witness(fields: Seq<Seq<u8>>, name: Seq<char>) -> (k: int)
    requires
        count_named(fields, name) > 0,
    ensures
        0 <= k < fields.len(),
        header::field_name(fields[k]) == name,
    decreases fields.len(),
{
    if header::field_name(fields.last()) == name {
        fields.len() - 1
    } else {
        let k = lemma_count_witness(fields.drop_last(), name);
        assert(fields.drop_last()[k] == fields[k]);
        k
    }
}

/// The field of the rewritten message that is named `From` is the rewritten one.
proof fn lemma_outgoing_from(raw: Seq<u8>, from_email: Seq<char>, k: int) -> (i: int)
    requires
        no_line_feed(from_email, None),
        0 <= k < outgoing_fields(raw, from_email, None).len(),
        header::field_name(outgoing_fields(raw, from_email, None)[k]) == "from"@,
    ensures
        0 <= i < fields_of(raw).len(),
        outgoing_fields(raw, from_email, None)[k] == rewrite::rewritten_from(
            rewrite::field_value(fields_of(raw)[i]),
            from_email,
            rewrite::line_ending(header::header_block(raw)),
        ),
{
    let block = header::header_block(raw);
    let fields = fields_of(raw);
    let names = rewrite::field_names(fields);
    let ending = rewrite::line_ending(block);
    let parts = rewrite::rewritten_fields(fields, from_email, None, ending);
    let kept = nonempty(parts);
    let outgoing = outgoing_fields(raw, from_email, None);
    reveal_strlit("from");
    rewrite::lemma_header_names_differ();
    assert("from"@.len() > 0);
    lemma_line_ending(block);
    lemma_rewritten_parts(raw, from_email, None);
    lemma_nonempty(parts, "from"@);
    if k == kept.len() {
        let from = search::first_index(names, "from"@)->0;
        lemma_reply_to_field(rewrite::field_value(fields[from]), ending);
    }
    let i = lemma_nonempty_source(parts, k);
    lemma_rewritten_field(raw, i, from_email, None);
    assert(sound_field(kept[k]));
    lemma_ended_field(kept[k], ending);
    assert(header::field_name(parts[i]) == "from"@);
    lemma_rewritten_from_field(rewrite::field_value(fields[i]), from_email, ending);
    assert(parts[i].last() == LF);
    assert(parts[i] + rewrite::line_break(parts[i], ending) =~= parts[i]);
    i
}

/// The rewritten message has the line ending of the inbound one.
proof fn lemma_same_line_ending(raw: Seq<u8>, from_email: Seq<char>, crlf: bool)
    requires
        no_line_feed(from_email, None),
        !utf8::encode_utf8(from_email).contains(CR),
        rewrite::has_from(raw),
        uniform_endings(header::header_block(raw), crlf),
    ensures
        rewrite::line_ending(
            header::header_block(rewrite::rewritten(raw, from_email, None)),
        ) == rewrite::line_ending(header::header_block(raw)),
{
    let block = header::header_block(raw);
    let fields = fields_of(raw);
    let ending = rewrite::line_ending(block);
    let parts = rewrite::rewritten_fields(fields, from_email, None, ending);
    let kept = nonempty(parts);
    let out = rewrite::rewritten(raw, from_email, None);
    let outgoing = fields_of(out);
    let is_crlf = ending == seq![CR, LF];
    reveal_strlit("from");
    rewrite::lemma_header_names_differ();
    assert("from"@.len() > 0);
    lemma_line_ending(block);
    lemma_header_has_no_blank_line(raw);
    lemma_header_has_no_blank_line(out);
    // The inbound lines end as the first of them does.
    assert(uniform_endings(block, is_crlf)) by {
        search::lemma_next_index(block, LF, 0);
        if search::first_index(block, LF) is Some {
            let i = search::first_index(block, LF)->0;
            assert(!header::blank_line_at(block, 0));
            assert(block[i] == LF);
        }
    }
    lemma_fields_uniform(block, is_crlf);
    law_rewritten_message_reads_back(raw, from_email, None);
    law_rewritten_field_counts(raw, from_email, None, "from"@);
    lemma_fields_sound(header::header_block(out));
    header::lemma_fields_concat(header::header_block(out));
    let k = lemma_count_witness(outgoing, "from"@);
    let first = outgoing[0];
    assert(sound_field(first));
    let i = lemma_outgoing_from(raw, from_email, k);
    lemma_rewritten_from_uniform(rewrite::field_value(fields[i]), from_email, ending);
    lemma_rewritten_from_field(rewrite::field_value(fields[i]), from_email, ending);
    if k > 0 {
        // The first field is one that stays as it is: the `From` comes later.
        lemma_rewritten_parts(raw, from_email, None);
        lemma_nonempty(parts, "from"@);
        if header::field_name(first) == "from"@ {
            lemma_count_at_least(outgoing, "from"@, 0, k);
        }
        assert(k < kept.len()) by {
            if k == kept.len() {
                let names = rewrite::field_names(fields);
                let from = search::first_index(names, "from"@)->0;
                lemma_reply_to_field(rewrite::field_value(fields[from]), ending);
            }
        }
        assert(first == kept[0]);
        let s = lemma_nonempty_source(parts, 0);
        lemma_rewritten_field(raw, s, from_email, None);
        assert(first == fields[s]) by {
            lemma_empty_name();
            if rewrite::field_names(fields)[s] == "from"@ {
                assert(header::field_name(parts[s]) == "from"@);
            }
        }
        assert(first.last() == LF);
    }
    lemma_field_line_ending(first, is_crlf);
    lemma_first_line_ending(outgoing);
}

/// Rewriting a rewritten message again changes nothing: its `Reply-To` keeps the
/// sender of the inbound message. It holds of every message without a `From`,
/// and of every message with one whose header lines all end in the same way and
/// that has a `Reply-To` or a first `From` that is not blank, for a sender
/// address without an opening angle bracket, carriage return and line feed.
pub proof fn law_rewriting_again_changes_nothing(raw: Seq<u8>, from_email: Seq<char>)
    requires
        !from_email.contains('<'),
        !from_email.contains('\r'),
        !from_email.contains('\n'),
        ({
            let block = header::header_block(raw);
            let names = rewrite::field_names(fields_of(raw));
            match search::first_index(names, "from"@) {
                Some(i) => {
                    &&& uniform_endings(block, true) || uniform_endings(block, false)
                    &&& names.contains("reply-to"@) || scan::trimmed_ascii(
                        rewrite::unfolded(rewrite::field_value(fields_of(raw)[i])),
                    ).len() > 0
                },
                None => true,
            }
        }),
    ensures
        ({
            let once = rewrite::rewritten(raw, from_email, None);
            rewrite::rewritten(once, from_email, None) == once
        }),
{
    let block = header::header_block(raw);
    let fields = fields_of(raw);
    let names = rewrite::field_names(fields);
    let ending = rewrite::line_ending(block);
    let once = rewrite::rewritten(raw, from_email, None);
    let again = fields_of(once);
    let again_names = rewrite::field_names(again);
    let again_ending = rewrite::line_ending(header::header_block(once));
    let email = utf8::encode_utf8(from_email);
    lemma_encoded_ascii_byte(from_email, LESS_THAN);
    lemma_encoded_ascii_byte(from_email, CR);
    lemma_encoded_ascii_byte(from_email, LF);
    reveal_strlit("from");
    reveal_strlit("reply-to");
    rewrite::lemma_header_names_differ();
    lemma_known_names_are_ascii();
    assert("from"@.len() > 0 && "reply-to"@.len() > 0);
    lemma_line_ending(block);
    law_rewritten_message_reads_back(raw, from_email, None);
    law_rewritten_field_counts(raw, from_email, None, "from"@);
    law_rewritten_field_counts(raw, from_email, None, "reply-to"@);
    search::lemma_next_index(names, "from"@, 0);
    search::lemma_next_index(again_names, "from"@, 0);

    if rewrite::has_from(raw) {
        assert(again_ending == ending) by {
            if uniform_endings(block, true) {
                lemma_same_line_ending(raw, from_email, true);
            } else {
                lemma_same_line_ending(raw, from_email, false);
            }
        }
        assert(again_names.contains("reply-to"@)) by {
            if names.contains("reply-to"@) {
                let i = choose|i: int| 0 <= i < names.len() && names[i] == "reply-to"@;
                lemma_count_at_least(fields, "reply-to"@, i, i);
            }
            let k = lemma_count_witness(again, "reply-to"@);
            assert(again_names[k] == "reply-to"@);
        }
    } else {
        assert(!again_names.contains("from"@)) by {
            if again_names.contains("from"@) {
                let k = choose|k: int| 0 <= k < again_names.len() && again_names[k] == "from"@;
                lemma_count_at_least(again, "from"@, k, k);
            }
        }
    }
    assert(rewrite::added_reply_to(again, again_ending) is None);

    let parts = rewrite::rewritten_fields(again, from_email, None, again_ending);
    assert forall|k: int| 0 <= k < again.len() implies parts[k] == again[k] by {
        assert(again_names[k] == header::field_name(again[k]));
        if rewrite::is_removed(again_names[k]) {
            law_rewritten_field_counts(raw, from_email, None, again_names[k]);
            lemma_count_at_least(again, again_names[k], k, k);
        } else if again_names[k] == "from"@ {
            assert forall|j: int| 0 <= j < k implies again_names[j] != "from"@ by {
                if again_names[j] == "from"@ {
                    lemma_count_at_least(again, "from"@, j, k);
                }
            }
            lemma_count_at_least(again, "from"@, k, k);
            search::lemma_next_index_is(again_names, "from"@, 0, k);
            let i = lemma_outgoing_from(raw, from_email, k);
            let value = rewrite::field_value(fields[i]);
            lemma_add_contains(email, ending, LESS_THAN);
            lemma_no_display_name(email + ending);
            law_display_name_is_preserved(value, from_email, block);
        }
    }
    assert(parts =~= again);
    header::lemma_fields_concat(header::header_block(once));
    header::lemma_message_parts(once);
}

// ---------------------------------------------------------------------------
// Text without control characters
// ---------------------------------------------------------------------------

/// Every byte that encodes a text is one of its ASCII characters or is no
/// ASCII byte at all.
pub proof fn lemma_encoded_ascii_byte(s: Seq<char>, byte: u8)
    requires
        byte < 128,
        !s.contains(byte as char),
    ensures
        !utf8::encode_utf8(s).contains(byte),
    decreases s.len(),
{
    if s.len() > 0 {
        let c = s[0] as u32;
        assert(s.contains(s[0]));
        assert forall|i: int| 0 <= i < s.drop_first().len() implies s.drop_first()[i] != byte as char by {
            assert(s.drop_first()[i] == s[i + 1]);
            assert(s.contains(s[i + 1]));
        }
        lemma_encoded_ascii_byte(s.drop_first(), byte);
        utf8::char_is_scalar(s[0]);
        let head = utf8::encode_scalar(c);
        utf8::char_u32_cast(s[0], c);
        let b = byte as u32;
        assert(b as char == byte as char);
        assert(c != b);
        assert(c <= 0x7f ==> (c & 0x7F) as u8 == c as u8 && ((c as u8) as u32 == c)) by (bit_vector);
        assert(0xC0u8 | ((c >> 6) & 0x1F) as u8 >= 128u8) by (bit_vector);
        assert(0xE0u8 | ((c >> 12) & 0x0F) as u8 >= 128u8) by (bit_vector);
        assert(0xF0u8 | ((c >> 18) & 0x07) as u8 >= 128u8) by (bit_vector);
        assert(0x80u8 | (c & 0x3F) as u8 >= 128u8) by (bit_vector);
        assert(0x80u8 | ((c >> 6) & 0x3F) as u8 >= 128u8) by (bit_vector);
        assert(0x80u8 | ((c >> 12) & 0x3F) as u8 >= 128u8) by (bit_vector);
        assert(forall|i: int| 0 <= i < head.len() ==> head[i] != byte);
        lemma_add_contains(head, utf8::encode_utf8(s.drop_first()), byte);
    }
}

/// A text without control characters is encoded without a carriage return or a
/// line feed.
pub proof fn lemma_no_control_no_line_feed(s: Seq<char>)
    requires
        forall|i: int| 0 <= i < s.len() ==> !text::is_control_char(#[trigger] s[i]),
    ensures
        !utf8::encode_utf8(s).contains(LF),
        !utf8::encode_utf8(s).contains(CR),
{
    lemma_encoded_ascii_byte(s, LF);
    lemma_encoded_ascii_byte(s, CR);
}

} // verus!
