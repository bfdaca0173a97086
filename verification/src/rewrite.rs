//! Rewriting the headers of a raw message, on bytes, so that non-UTF-8 mail is
//! never corrupted.
use crate::header;
use crate::header::{parse_header_fields, split_message, HeaderField};
use crate::scan;
use crate::scan::{
    extend_bytes, find_byte, skip_blanks, trim_ascii, COLON, CR, GREATER_THAN, LESS_THAN, LF, SPACE,
    TAB,
};
use crate::search;
use crate::text;
use crate::text::same_text;
use vstd::prelude::*;
use vstd::utf8;

verus! {

/// The result of [`rewrite_message`].
#[derive(Debug, Clone, PartialEq, Eq)]
pub struct RewriteOutcome {
    /// The rewritten message bytes.
    pub message: Vec<u8>,
    /// Whether a `From` header was found and rewritten. When false, the message
    /// had no `From` to rewrite (e.g. it began with a blank line, so the entire
    /// content became body), and the caller must not forward it - SES would
    /// reject a send whose raw `From` is not the verified sender.
    pub from_rewritten: bool,
}

// ---------------------------------------------------------------------------
// Field values
// ---------------------------------------------------------------------------

/// How many bytes the line terminator at the start of `s` has.
pub open spec fn terminator_len(s: Seq<u8>) -> int {
    if s.len() >= 2 && s[0] == CR && s[1] == LF {
        2
    } else {
        1
    }
}

/// A header value on one line: each fold (a terminator followed by spaces or
/// tabs) becomes a single space, and every other terminator is dropped.
pub open spec fn unfolded(value: Seq<u8>) -> Seq<u8>
    decreases value.len(),
{
    if value.len() == 0 {
        Seq::empty()
    } else if !scan::is_terminator(value[0]) {
        seq![value[0]] + unfolded(value.drop_first())
    } else {
        let rest = value.skip(terminator_len(value));
        let blanks = scan::blank_run(rest);
        if 0 < blanks <= rest.len() {
            seq![SPACE] + unfolded(rest.skip(blanks as int))
        } else {
            unfolded(rest)
        }
    }
}

/// Unfold a header value: replace each line fold (a terminator followed by
/// leading whitespace) with a single space, and drop the trailing terminator.
/// Operates on bytes so non-UTF-8 content is not corrupted.
pub fn unfold_value(value: &[u8]) -> (out: Vec<u8>)
    ensures
        out@ == unfolded(value@),
{
    let mut out: Vec<u8> = Vec::with_capacity(value.len());
    let mut index: usize = 0;
    let ghost s = value@;
    assert(s.skip(0) =~= s);
    assert(out@ + unfolded(s) =~= unfolded(s));
    while index < value.len()
        invariant
            s == value@,
            index <= s.len(),
            out@ + unfolded(s.skip(index as int)) == unfolded(s),
        decreases s.len() - index,
    {
        let ghost rest = s.skip(index as int);
        let ghost before = out@;
        let byte: u8 = value[index];
        if byte != CR && byte != LF {
            out.push(byte);
            index += 1;
            proof {
                assert(rest.drop_first() =~= s.skip(index as int));
                assert(out@ + unfolded(s.skip(index as int)) =~= before + unfolded(rest));
            }
            continue;
        }
        // Consume the terminator (\r\n, \r, or \n).
        let mut after_terminator: usize = index;
        if value[after_terminator] == CR {
            after_terminator += 1;
        }
        if after_terminator < value.len() && value[after_terminator] == LF {
            after_terminator += 1;
        }
        let after_blanks: usize = skip_blanks(value, after_terminator);
        proof {
            let tail = rest.skip(terminator_len(rest));
            assert(tail =~= s.skip(after_terminator as int));
            scan::lemma_blank_run(tail);
            assert(tail.skip(scan::blank_run(tail) as int) =~= s.skip(after_blanks as int));
            if scan::blank_run(tail) == 0 {
                assert(s.skip(after_blanks as int) =~= tail);
            }
        }
        if after_blanks > after_terminator {
            out.push(SPACE);
            assert(out@ + unfolded(s.skip(after_blanks as int)) =~= before + unfolded(rest));
        }
        index = after_blanks;
    }
    assert(out@ + unfolded(s.skip(index as int)) =~= out@);
    out
}

/// The value of a field: what follows its first colon.
pub open spec fn field_value(field: Seq<u8>) -> Seq<u8> {
    match search::first_index(field, COLON) {
        Some(colon) => field.skip(colon + 1),
        None => field,
    }
}

/// The raw bytes after the first `:` in a field (its value, with the leading
/// space, any folded continuation, and the terminator).
pub fn value_after_colon(field_bytes: &[u8]) -> (out: Vec<u8>)
    ensures
        out@ == field_value(field_bytes@),
{
    let len: usize = field_bytes.len();
    proof {
        search::lemma_next_index(field_bytes@, COLON, 0);
    }
    match find_byte(field_bytes, COLON, 0) {
        Some(colon) => {
            let value = &field_bytes[colon + 1..len];
            assert(value@ =~= field_bytes@.skip(colon + 1));
            vstd::slice::slice_to_vec(value)
        },
        None => vstd::slice::slice_to_vec(field_bytes),
    }
}

/// The line ending of a header block: that of its first line, or a line feed.
pub open spec fn line_ending(block: Seq<u8>) -> Seq<u8> {
    match search::first_index(block, LF) {
        Some(i) => if i > 0 && block[i - 1] == CR {
            seq![CR, LF]
        } else {
            seq![LF]
        },
        None => seq![LF],
    }
}

/// Detect the line ending to use for synthesized headers, from the first line
/// terminator in the header block. Defaults to LF.
pub fn detect_line_ending(header_block: &[u8]) -> (out: Vec<u8>)
    ensures
        out@ == line_ending(header_block@),
{
    proof {
        search::lemma_next_index(header_block@, LF, 0);
    }
    let mut ending: Vec<u8> = Vec::new();
    match find_byte(header_block, LF, 0) {
        Some(newline_index) => {
            if newline_index > 0 && header_block[newline_index - 1] == CR {
                ending.push(CR);
            }
        },
        None => {},
    }
    ending.push(LF);
    assert(ending@ =~= line_ending(header_block@));
    ending
}

// ---------------------------------------------------------------------------
// Synthesized fields
// ---------------------------------------------------------------------------

/// The display name of a `From` value: what stands before its first `<`.
pub open spec fn display_name(value: Seq<u8>) -> Seq<u8> {
    let address = scan::trimmed_ascii(unfolded(value));
    match search::first_index(address, LESS_THAN) {
        Some(angle) => scan::trimmed_ascii(address.take(angle)),
        None => Seq::empty(),
    }
}

/// The `From` field that replaces one with the given value.
pub open spec fn rewritten_from(value: Seq<u8>, from_email: Seq<char>, ending: Seq<u8>) -> Seq<u8> {
    let name = display_name(value);
    if name.len() == 0 {
        utf8::encode_utf8("From: "@) + utf8::encode_utf8(from_email) + ending
    } else {
        utf8::encode_utf8("From: "@) + name + utf8::encode_utf8(" <"@) + utf8::encode_utf8(
            from_email,
        ) + seq![GREATER_THAN] + ending
    }
}

/// Build the rewritten `From` field, preserving the display name if present.
pub fn build_rewritten_from(inbound_value: &[u8], from_email: &str, line_ending: &[u8]) -> (out: Vec<
    u8,
>)
    ensures
        out@ == rewritten_from(inbound_value@, from_email@, line_ending@),
{
    let unfolded = unfold_value(inbound_value);
    let trimmed = trim_ascii(unfolded.as_slice());
    proof {
        search::lemma_next_index(trimmed@, LESS_THAN, 0);
    }
    let display_name: &[u8] = match find_byte(trimmed, LESS_THAN, 0) {
        Some(angle) => {
            let name = &trimmed[0..angle];
            assert(name@ =~= trimmed@.take(angle as int));
            trim_ascii(name)
        },
        None => &trimmed[0..0],
    };
    assert(display_name@ =~= self::display_name(inbound_value@));

    let mut field: Vec<u8> = Vec::new();
    extend_bytes(&mut field, "From: ".as_bytes());
    assert(field@ =~= utf8::encode_utf8("From: "@));
    if display_name.is_empty() {
        extend_bytes(&mut field, from_email.as_bytes());
    } else {
        extend_bytes(&mut field, display_name);
        extend_bytes(&mut field, " <".as_bytes());
        extend_bytes(&mut field, from_email.as_bytes());
        let ghost before = field@;
        field.push(GREATER_THAN);
        assert(field@ =~= before + seq![GREATER_THAN]);
    }
    extend_bytes(&mut field, line_ending);
    field
}

/// The `Reply-To` field for a `From` value.
pub open spec fn reply_to_field(value: Seq<u8>, ending: Seq<u8>) -> Seq<u8> {
    utf8::encode_utf8("Reply-To:"@) + unfolded(value) + ending
}

/// Build a `Reply-To` field from the captured `From` value.
///
/// The value is unfolded first, which strips every CR and LF byte (folds become
/// single spaces). That preserves the address while guaranteeing the reused,
/// attacker-influenced bytes cannot carry a stray CR/LF into a header a lenient
/// parser might split on.
pub fn build_reply_to(from_value: &[u8], line_ending: &[u8]) -> (out: Vec<u8>)
    ensures
        out@ == reply_to_field(from_value@, line_ending@),
{
    let unfolded = unfold_value(from_value);
    let mut field: Vec<u8> = Vec::new();
    extend_bytes(&mut field, "Reply-To:".as_bytes());
    assert(field@ =~= utf8::encode_utf8("Reply-To:"@));
    extend_bytes(&mut field, unfolded.as_slice());
    extend_bytes(&mut field, line_ending);
    field
}

/// Where the text of a field's value starts: past the first colon and the
/// spaces and tabs that follow it.
pub open spec fn value_text_start(field: Seq<u8>) -> Option<int> {
    match search::first_index(field, COLON) {
        Some(colon) => Some(colon + 1 + scan::blank_run(field.skip(colon + 1))),
        None => None,
    }
}

/// A field with `prefix` put in front of the text of its value.
pub open spec fn prefixed_subject(field: Seq<u8>, prefix: Seq<char>) -> Seq<u8> {
    match value_text_start(field) {
        Some(start) => field.take(start) + utf8::encode_utf8(prefix) + field.skip(start),
        None => field,
    }
}

/// Build the `Subject` field with `prefix` prepended to its value, preserving
/// the leading whitespace and any folded continuation.
pub fn build_prefixed_subject(field_bytes: &[u8], prefix: &str) -> (out: Vec<u8>)
    ensures
        out@ == prefixed_subject(field_bytes@, prefix@),
{
    let len: usize = field_bytes.len();
    proof {
        search::lemma_next_index(field_bytes@, COLON, 0);
    }
    match find_byte(field_bytes, COLON, 0) {
        Some(colon) => {
            let text_start: usize = skip_blanks(field_bytes, colon + 1);
            let mut field: Vec<u8> = Vec::new();
            extend_bytes(&mut field, &field_bytes[0..text_start]);
            assert(field@ =~= field_bytes@.take(text_start as int));
            extend_bytes(&mut field, prefix.as_bytes());
            let rest = &field_bytes[text_start..len];
            assert(rest@ =~= field_bytes@.skip(text_start as int));
            extend_bytes(&mut field, rest);
            field
        },
        None => vstd::slice::slice_to_vec(field_bytes),
    }
}

// ---------------------------------------------------------------------------
// The message as a whole
// ---------------------------------------------------------------------------

/// A field that is left out (all occurrences) before re-sending.
pub open spec fn is_removed(name: Seq<char>) -> bool {
    name == "return-path"@ || name == "sender"@ || name == "message-id"@ || name
        == "dkim-signature"@
}

/// The names of header fields.
pub open spec fn field_names(fields: Seq<Seq<u8>>) -> Seq<Seq<char>> {
    fields.map_values(|field: Seq<u8>| header::field_name(field))
}

/// What the field at `i` becomes. The first `From` is rewritten and every other
/// one left out; the first `Subject` takes the prefix, when there is one; the
/// removed fields are left out; all others stay as they are.
pub open spec fn rewritten_field(
    fields: Seq<Seq<u8>>,
    i: int,
    from_email: Seq<char>,
    prefix: Option<Seq<char>>,
    ending: Seq<u8>,
) -> Seq<u8> {
    let names = field_names(fields);
    if is_removed(names[i]) {
        Seq::empty()
    } else if names[i] == "from"@ {
        if search::first_index(names, "from"@) == Some(i) {
            rewritten_from(field_value(fields[i]), from_email, ending)
        } else {
            Seq::empty()
        }
    } else if names[i] == "subject"@ && prefix is Some && search::first_index(names, "subject"@)
        == Some(i) {
        prefixed_subject(fields[i], prefix->0)
    } else {
        fields[i]
    }
}

/// What each field becomes, in order.
pub open spec fn rewritten_fields(
    fields: Seq<Seq<u8>>,
    from_email: Seq<char>,
    prefix: Option<Seq<char>>,
    ending: Seq<u8>,
) -> Seq<Seq<u8>> {
    Seq::new(
        fields.len(),
        |i: int| rewritten_field(fields, i, from_email, prefix, ending),
    )
}

/// The `Reply-To` field that is added: one that repeats the value of the first
/// `From`, unless the message has a `Reply-To` already, has no `From`, or the
/// value of that `From` is blank.
pub open spec fn added_reply_to(fields: Seq<Seq<u8>>, ending: Seq<u8>) -> Option<Seq<u8>> {
    let names = field_names(fields);
    match search::first_index(names, "from"@) {
        Some(i) => {
            let value = field_value(fields[i]);
            if names.contains("reply-to"@) || scan::trimmed_ascii(unfolded(value)).len() == 0 {
                None
            } else {
                Some(reply_to_field(value, ending))
            }
        },
        None => None,
    }
}

/// What goes between the lines of a header and a field that is put behind them:
/// nothing where the last line has an ending, and otherwise the ending that it
/// lacks. Where that would make a blank line, of a last line that is a lone
/// carriage return, the ending is `\r\n`.
pub open spec fn line_break(lines: Seq<u8>, ending: Seq<u8>) -> Seq<u8> {
    if lines.len() == 0 || lines.last() == LF {
        Seq::empty()
    } else if header::blank_line_at(lines + ending, lines.len() - 1) {
        seq![CR, LF]
    } else {
        ending
    }
}

/// The header block that replaces one with the given fields.
pub open spec fn rewritten_header(
    fields: Seq<Seq<u8>>,
    from_email: Seq<char>,
    prefix: Option<Seq<char>>,
    ending: Seq<u8>,
) -> Seq<u8> {
    let kept = header::concat(rewritten_fields(fields, from_email, prefix, ending));
    match added_reply_to(fields, ending) {
        Some(field) => kept + line_break(kept, ending) + field,
        None => kept,
    }
}

/// The message that replaces `raw`: its header block rewritten, and separator
/// and body as they were.
pub open spec fn rewritten(raw: Seq<u8>, from_email: Seq<char>, prefix: Option<Seq<char>>) -> Seq<
    u8,
> {
    let block = header::header_block(raw);
    rewritten_header(header::split_fields(block), from_email, prefix, line_ending(block))
        + header::separator(raw) + header::body(raw)
}

/// Whether a message has a `From` field.
pub open spec fn has_from(raw: Seq<u8>) -> bool {
    field_names(header::split_fields(header::header_block(raw))).contains("from"@)
}

fn is_removed_field(name: &str) -> (out: bool)
    ensures
        out == is_removed(name@),
{
    same_text(name, "return-path") || same_text(name, "sender") || same_text(name, "message-id")
        || same_text(name, "dkim-signature")
}

fn has_field_named(fields: &Vec<HeaderField>, name: &str) -> (out: bool)
    requires
        forall|i: int| 0 <= i < fields@.len() ==> (#[trigger] fields@[i]).wf(),
    ensures
        out == field_names(header::fields_bytes(fields@)).contains(name@),
{
    let ghost names = field_names(header::fields_bytes(fields@));
    let mut i: usize = 0;
    while i < fields.len()
        invariant
            i <= fields@.len(),
            names == field_names(header::fields_bytes(fields@)),
            forall|j: int| 0 <= j < fields@.len() ==> (#[trigger] fields@[j]).wf(),
            forall|j: int| 0 <= j < i ==> names[j] != name@,
        decreases fields@.len() - i,
    {
        assert(fields@[i as int].wf());
        if same_text(fields[i].name_lower.as_str(), name) {
            assert(names[i as int] == name@);
            return true;
        }
        i += 1;
    }
    false
}

/// Gives the last line of a header the ending that it lacks, so that a field can
/// be put behind it.
fn end_last_line(lines: &mut Vec<u8>, ending: &[u8])
    ensures
        final(lines)@ == old(lines)@ + line_break(old(lines)@, ending@),
{
    let len: usize = lines.len();
    if len == 0 || lines[len - 1] == LF {
        assert(lines@ =~= lines@ + line_break(lines@, ending@));
        return;
    }
    let ghost all = lines@ + ending@;
    let lone_carriage_return: bool = lines[len - 1] == CR && (len == 1 || lines[len - 2] == LF);
    if lone_carriage_return && ending.len() > 0 && ending[0] == LF {
        assert(all[len as int] == LF);
        assert(header::blank_line_at(all, len - 1));
        lines.push(CR);
        lines.push(LF);
        assert(lines@ =~= old(lines)@ + line_break(old(lines)@, ending@));
    } else {
        assert(!header::blank_line_at(all, len - 1)) by {
            assert(all[len - 1] == lines@[len - 1]);
        }
        extend_bytes(lines, ending);
    }
}

/// Rewrite the raw message so SES will accept it for sending.
///
/// - `From` is rewritten to `from_email`, preserving any display name.
/// - `Reply-To` equal to the inbound `From` is added, on a line of its own, unless
///   one already exists or the inbound `From` value is blank.
/// - `Return-Path`, `Sender`, `Message-ID`, and `DKIM-Signature` are removed.
/// - When `subject_prefix` is set, it is prepended to the `Subject` value.
///
/// The body is preserved exactly. When nothing needs to change, the output is
/// byte-for-byte identical to the input.
pub fn rewrite_message(raw: &[u8], from_email: &str, subject_prefix: Option<&str>) -> (out:
    RewriteOutcome)
    ensures
        out.message@ == rewritten(raw@, from_email@, text::opt_text(subject_prefix)),
        out.from_rewritten == has_from(raw@),
{
    let (header_block, separator, body) = split_message(raw);
    let ending = detect_line_ending(header_block);
    let fields = parse_header_fields(header_block);
    let ghost blocks = header::fields_bytes(fields@);
    let ghost names = field_names(blocks);
    let ghost prefix = text::opt_text(subject_prefix);
    let ghost parts = rewritten_fields(blocks, from_email@, prefix, ending@);

    let reply_to_already_present: bool = has_field_named(&fields, "reply-to");

    let mut new_header: Vec<u8> = Vec::with_capacity(header_block.len());
    let mut first_from_captured: Option<Vec<u8>> = None;
    let mut subject_prefixed: bool = false;
    let mut i: usize = 0;
    assert(parts.take(0) =~= Seq::<Seq<u8>>::empty());
    while i < fields.len()
        invariant
            i <= fields@.len(),
            blocks == header::fields_bytes(fields@),
            names == field_names(blocks),
            prefix == text::opt_text(subject_prefix),
            parts == rewritten_fields(blocks, from_email@, prefix, ending@),
            forall|j: int| 0 <= j < fields@.len() ==> (#[trigger] fields@[j]).wf(),
            new_header@ == header::concat(parts.take(i as int)),
            match first_from_captured {
                Some(value) => exists|j: int|
                    0 <= j < i && #[trigger] search::first_index(names, "from"@) == Some(j) && value@
                        == field_value(blocks[j]),
                None => forall|j: int| 0 <= j < i ==> names[j] != "from"@,
            },
            subject_prefixed <==> prefix is Some && exists|j: int|
                0 <= j < i && names[j] == "subject"@,
        decreases fields@.len() - i,
    {
        let field = &fields[i];
        let ghost before = new_header@;
        proof {
            assert(fields@[i as int].wf());
            assert(names[i as int] == field.name_lower@);
            assert(blocks[i as int] == field.bytes@);
            assert(parts.take(i + 1).drop_last() =~= parts.take(i as int));
            assert(parts.take(i + 1).last() == parts[i as int]);
            search::lemma_next_index(names, "from"@, 0);
            search::lemma_next_index(names, "subject"@, 0);
            lemma_header_names_differ();
        }
        let name = field.name_lower.as_str();
        if is_removed_field(name) {
            assert(new_header@ =~= before + parts[i as int]);
        } else if same_text(name, "from") {
            // Rewrite the first From; drop any additional From fields so the
            // outgoing message has exactly one (no header injection).
            if first_from_captured.is_none() {
                let from_value = value_after_colon(field.bytes.as_slice());
                let rewritten = build_rewritten_from(
                    from_value.as_slice(),
                    from_email,
                    ending.as_slice(),
                );
                extend_bytes(&mut new_header, rewritten.as_slice());
                first_from_captured = Some(from_value);
                proof {
                    search::lemma_next_index_is(names, "from"@, 0, i as int);
                }
            } else {
                assert(new_header@ =~= before + parts[i as int]);
            }
        } else if !subject_prefixed && same_text(name, "subject") {
            proof {
                if prefix is Some {
                    search::lemma_next_index_is(names, "subject"@, 0, i as int);
                }
            }
            match subject_prefix {
                Some(prefix) => {
                    subject_prefixed = true;
                    let prefixed = build_prefixed_subject(field.bytes.as_slice(), prefix);
                    extend_bytes(&mut new_header, prefixed.as_slice());
                },
                None => {
                    extend_bytes(&mut new_header, field.bytes.as_slice());
                },
            }
        } else {
            extend_bytes(&mut new_header, field.bytes.as_slice());
        }
        i += 1;
    }
    assert(parts.take(i as int) =~= parts);

    let from_rewritten: bool = first_from_captured.is_some();
    proof {
        search::lemma_next_index(names, "from"@, 0);
        if from_rewritten {
            assert(names.contains("from"@));
        }
    }
    match first_from_captured {
        Some(from_value) => {
            // Only add Reply-To when there is a real address to reply to; a
            // blank From value would otherwise produce an empty `Reply-To:` line.
            let unfolded = unfold_value(from_value.as_slice());
            let from_is_blank: bool = trim_ascii(unfolded.as_slice()).is_empty();
            if !reply_to_already_present && !from_is_blank {
                end_last_line(&mut new_header, ending.as_slice());
                let reply_to = build_reply_to(from_value.as_slice(), ending.as_slice());
                extend_bytes(&mut new_header, reply_to.as_slice());
            }
        },
        None => {},
    }
    assert(new_header@ == rewritten_header(blocks, from_email@, prefix, ending@));

    let mut message: Vec<u8> = new_header;
    extend_bytes(&mut message, separator);
    extend_bytes(&mut message, body);
    RewriteOutcome { message, from_rewritten }
}

/// The names that the rewriting tells apart are different names.
pub proof fn lemma_header_names_differ()
    ensures
        !is_removed("from"@),
        !is_removed("subject"@),
        !is_removed("reply-to"@),
        "from"@ != "subject"@,
        "from"@ != "reply-to"@,
        "subject"@ != "reply-to"@,
{
    reveal_strlit("from");
    reveal_strlit("subject");
    reveal_strlit("reply-to");
    reveal_strlit("return-path");
    reveal_strlit("sender");
    reveal_strlit("message-id");
    reveal_strlit("dkim-signature");
    assert("from"@.len() == 4);
    assert("subject"@.len() == 7);
    assert("reply-to"@.len() == 8);
    assert("return-path"@.len() == 11);
    assert("sender"@.len() == 6);
    assert("message-id"@.len() == 10);
    assert("dkim-signature"@.len() == 14);
}

} // verus!
