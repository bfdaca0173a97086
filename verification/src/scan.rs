//! Linear scans over bytes.
use crate::search;
use vstd::prelude::*;

verus! {

pub const LF: u8 = 10;

pub const CR: u8 = 13;

pub const SPACE: u8 = 32;

pub const TAB: u8 = 9;

pub const COLON: u8 = 58;

pub const LESS_THAN: u8 = 60;

pub const GREATER_THAN: u8 = 62;

/// A space or a tab.
pub open spec fn is_blank(byte: u8) -> bool {
    byte == SPACE || byte == TAB
}

/// A byte that ends a line, alone or with the other one.
pub open spec fn is_terminator(byte: u8) -> bool {
    byte == CR || byte == LF
}

/// ASCII white space: tab, line feed, form feed, carriage return and space.
pub open spec fn is_ascii_space(byte: u8) -> bool {
    byte == TAB || byte == LF || byte == 12 || byte == CR || byte == SPACE
}

/// The index of the first `byte` in `bytes` at or after `from`.
pub fn find_byte(bytes: &[u8], byte: u8, from: usize) -> (out: Option<usize>)
    requires
        from <= bytes@.len(),
    ensures
        match out {
            Some(i) => search::next_index(bytes@, byte, from as int) == Some(i as int),
            None => search::next_index(bytes@, byte, from as int) is None,
        },
{
    let mut i: usize = from;
    while i < bytes.len()
        invariant
            from <= i <= bytes@.len(),
            forall|j: int| from <= j < i ==> bytes@[j] != byte,
        decreases bytes@.len() - i,
    {
        if bytes[i] == byte {
            proof {
                search::lemma_next_index_is(bytes@, byte, from as int, i as int);
            }
            return Some(i);
        }
        i += 1;
    }
    proof {
        search::lemma_next_index_none(bytes@, byte, from as int);
    }
    None
}

/// How many bytes at the start of `s` are spaces and tabs.
pub open spec fn blank_run(s: Seq<u8>) -> nat
    decreases s.len(),
{
    if s.len() > 0 && is_blank(s[0]) {
        1 + blank_run(s.drop_first())
    } else {
        0
    }
}

/// The blank run stops at the first byte that is no space or tab.
pub proof fn lemma_blank_run(s: Seq<u8>)
    ensures
        blank_run(s) <= s.len(),
        forall|i: int| 0 <= i < blank_run(s) ==> is_blank(#[trigger] s[i]),
        blank_run(s) < s.len() ==> !is_blank(s[blank_run(s) as int]),
    decreases s.len(),
{
    if s.len() > 0 && is_blank(s[0]) {
        lemma_blank_run(s.drop_first());
        assert forall|i: int| 0 <= i < blank_run(s) implies is_blank(#[trigger] s[i]) by {
            if i > 0 {
                assert(s[i] == s.drop_first()[i - 1]);
            }
        }
    }
}

/// The index just past the spaces and tabs that stand at `from`.
pub fn skip_blanks(bytes: &[u8], from: usize) -> (out: usize)
    requires
        from <= bytes@.len(),
    ensures
        out == from + blank_run(bytes@.skip(from as int)),
        out <= bytes@.len(),
{
    let mut i: usize = from;
    while i < bytes.len() && (bytes[i] == SPACE || bytes[i] == TAB)
        invariant
            from <= i <= bytes@.len(),
            i + blank_run(bytes@.skip(i as int)) == from + blank_run(bytes@.skip(from as int)),
        decreases bytes@.len() - i,
    {
        assert(bytes@.skip(i as int).drop_first() =~= bytes@.skip(i + 1));
        i += 1;
    }
    i
}

/// `s` without its leading ASCII white space.
pub open spec fn trim_ascii_start(s: Seq<u8>) -> Seq<u8>
    decreases s.len(),
{
    if s.len() > 0 && is_ascii_space(s[0]) {
        trim_ascii_start(s.drop_first())
    } else {
        s
    }
}

/// `s` without its trailing ASCII white space.
pub open spec fn trim_ascii_end(s: Seq<u8>) -> Seq<u8>
    decreases s.len(),
{
    if s.len() > 0 && is_ascii_space(s.last()) {
        trim_ascii_end(s.drop_last())
    } else {
        s
    }
}

/// `s` without its leading and trailing ASCII white space.
pub open spec fn trimmed_ascii(s: Seq<u8>) -> Seq<u8> {
    trim_ascii_end(trim_ascii_start(s))
}

fn ascii_space(byte: u8) -> (out: bool)
    ensures
        out == is_ascii_space(byte),
{
    byte == TAB || byte == LF || byte == 12 || byte == CR || byte == SPACE
}

/// `bytes` without its leading and trailing ASCII white space.
pub fn trim_ascii(bytes: &[u8]) -> (out: &[u8])
    ensures
        out@ == trimmed_ascii(bytes@),
{
    let mut from: usize = 0;
    assert(bytes@.skip(0) =~= bytes@);
    while from < bytes.len() && ascii_space(bytes[from])
        invariant
            from <= bytes@.len(),
            trim_ascii_start(bytes@) == trim_ascii_start(bytes@.skip(from as int)),
        decreases bytes@.len() - from,
    {
        assert(bytes@.skip(from as int).drop_first() =~= bytes@.skip(from + 1));
        from += 1;
    }
    let mut to: usize = bytes.len();
    assert(bytes@.subrange(from as int, to as int) =~= bytes@.skip(from as int));
    while from < to && ascii_space(bytes[to - 1])
        invariant
            from <= to <= bytes@.len(),
            trimmed_ascii(bytes@) == trim_ascii_end(bytes@.subrange(from as int, to as int)),
        decreases to,
    {
        assert(bytes@.subrange(from as int, to as int).drop_last() =~= bytes@.subrange(
            from as int,
            to - 1,
        ));
        to -= 1;
    }
    &bytes[from..to]
}

/// Trimming takes bytes away and brings none in.
pub proof fn lemma_trimmed_ascii_contains(s: Seq<u8>, byte: u8)
    requires
        !s.contains(byte),
    ensures
        !trimmed_ascii(s).contains(byte),
{
    lemma_trim_ascii_start_contains(s, byte);
    lemma_trim_ascii_end_contains(trim_ascii_start(s), byte);
}

proof fn lemma_trim_ascii_start_contains(s: Seq<u8>, byte: u8)
    requires
        !s.contains(byte),
    ensures
        !trim_ascii_start(s).contains(byte),
    decreases s.len(),
{
    if s.len() > 0 && is_ascii_space(s[0]) {
        assert forall|i: int| 0 <= i < s.len() - 1 implies s.drop_first()[i] != byte by {
            assert(s.drop_first()[i] == s[i + 1]);
        }
        lemma_trim_ascii_start_contains(s.drop_first(), byte);
    }
}

proof fn lemma_trim_ascii_end_contains(s: Seq<u8>, byte: u8)
    requires
        !s.contains(byte),
    ensures
        !trim_ascii_end(s).contains(byte),
    decreases s.len(),
{
    if s.len() > 0 && is_ascii_space(s.last()) {
        assert forall|i: int| 0 <= i < s.len() - 1 implies s.drop_last()[i] != byte by {
            assert(s.drop_last()[i] == s[i]);
        }
        lemma_trim_ascii_end_contains(s.drop_last(), byte);
    }
}

/// Appends `tail` to `bytes`.
pub fn extend_bytes(bytes: &mut Vec<u8>, tail: &[u8])
    ensures
        final(bytes)@ == old(bytes)@ + tail@,
{
    bytes.extend_from_slice(tail);
    assert(bytes@ =~= old(bytes)@ + tail@);
}

} // verus!
