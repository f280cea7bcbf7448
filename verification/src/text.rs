use crate::sequence::lemma_remove_first_at;
use crate::sequence::lemma_remove_first_none;
use crate::sequence::spec_first_index;
use crate::sequence::spec_is_first;
use vstd::prelude::*;
use vstd::slice::slice_subrange;
use vstd::slice::slice_to_vec;
use vstd::utf8::decode_utf8;
use vstd::utf8::encode_utf8;
use vstd::utf8::encode_utf8_decode_utf8;
use vstd::utf8::valid_utf8;

verus! {

/// `String::from_utf8` of std: the text that `bytes` spell in UTF-8, and
/// nothing where they spell none.
#[verifier::external_body]
fn string_from_utf8(bytes: Vec<u8>) -> (r: Option<String>)
    ensures
        r is Some <==> valid_utf8(bytes@),
        r is Some ==> r->0@ == decode_utf8(bytes@),
{
    String::from_utf8(bytes).ok()
}

/// The text that the bytes `input[from..to]` spell in UTF-8, if any.
pub fn text_of_bytes(input: &[u8], from: usize, to: usize) -> (r: Option<String>)
    requires
        from <= to <= input@.len(),
    ensures
        r is Some <==> valid_utf8(input@.subrange(from as int, to as int)),
        r is Some ==> r->0@ == decode_utf8(input@.subrange(from as int, to as int)),
{
    string_from_utf8(slice_to_vec(slice_subrange(input, from, to)))
}

/// Two texts with the same UTF-8 bytes are the same text.
pub proof fn lemma_same_bytes_same_text(a: Seq<char>, b: Seq<char>)
    requires
        encode_utf8(a) == encode_utf8(b),
    ensures
        a == b,
{
    encode_utf8_decode_utf8(a);
    encode_utf8_decode_utf8(b);
}

/// The count of the bytes that spell `text` in UTF-8.
pub fn byte_len(text: &str) -> (n: usize)
    ensures
        n == encode_utf8(text@).len(),
{
    text.as_bytes().len()
}

/// Whether two runs of bytes are equal.
pub fn bytes_eq(a: &[u8], b: &[u8]) -> (r: bool)
    ensures
        r == (a@ == b@),
{
    if a.len() != b.len() {
        return false;
    }
    let mut i: usize = 0;
    while i < a.len()
        invariant
            a@.len() == b@.len(),
            i <= a@.len(),
            forall|j: int| 0 <= j < i ==> a@[j] == b@[j],
        decreases a@.len() - i,
    {
        if a[i] != b[i] {
            return false;
        }
        i += 1;
    }
    assert(a@ =~= b@);
    true
}

/// Whether two texts are equal.
pub fn str_eq(a: &str, b: &str) -> (r: bool)
    ensures
        r == (a@ == b@),
{
    let r = bytes_eq(a.as_bytes(), b.as_bytes());
    proof {
        if r {
            lemma_same_bytes_same_text(a@, b@);
        }
    }
    r
}

/// The test that a byte is `byte`.
pub open spec fn spec_is_byte(byte: u8) -> spec_fn(u8) -> bool {
    |b: u8| b == byte
}

/// The bytes before the first `byte`; all of them where there is none.
pub open spec fn spec_before(bytes: Seq<u8>, byte: u8) -> Seq<u8> {
    match spec_first_index(bytes, spec_is_byte(byte)) {
        Some(i) => bytes.take(i),
        None => bytes,
    }
}

/// The place of the first `byte` at or after `from`, if there is one.
pub fn find_byte(bytes: &[u8], from: usize, byte: u8) -> (r: Option<usize>)
    requires
        from <= bytes.len(),
    ensures
        match spec_first_index(bytes@.skip(from as int), spec_is_byte(byte)) {
            Some(i) => r == Some((from + i) as usize) && from + i < bytes.len(),
            None => r is None,
        },
{
    let ghost tail = bytes@.skip(from as int);
    let mut i: usize = from;
    while i < bytes.len()
        invariant
            from <= i <= bytes.len(),
            tail == bytes@.skip(from as int),
            forall|j: int| 0 <= j < i - from ==> !spec_is_byte(byte)(#[trigger] tail[j]),
        decreases bytes.len() - i,
    {
        if bytes[i] == byte {
            proof {
                assert(spec_is_first(tail, spec_is_byte(byte), i - from));
                lemma_remove_first_at(tail, spec_is_byte(byte), i - from);
            }
            return Some(i);
        }
        i += 1;
    }
    proof {
        lemma_remove_first_none(tail, spec_is_byte(byte));
    }
    None
}

/// Whether `bytes[from..to]` is what `whole` begins with.
pub fn starts_with(whole: &[u8], bytes: &[u8], from: usize, to: usize) -> (r: bool)
    requires
        from <= to <= bytes.len(),
    ensures
        r == bytes@.subrange(from as int, to as int).is_prefix_of(whole@),
{
    let length = to - from;
    if whole.len() < length {
        return false;
    }
    bytes_eq(slice_subrange(whole, 0, length), slice_subrange(bytes, from, to))
}

/// Whether `bytes[from..to]` is what `whole` ends with.
pub fn ends_with(whole: &[u8], bytes: &[u8], from: usize, to: usize) -> (r: bool)
    requires
        from <= to <= bytes.len(),
    ensures
        r == bytes@.subrange(from as int, to as int).is_suffix_of(whole@),
{
    let length = to - from;
    if whole.len() < length {
        return false;
    }
    bytes_eq(
        slice_subrange(whole, whole.len() - length, whole.len()),
        slice_subrange(bytes, from, to),
    )
}

/// The two parts of a line around its first `separator`, as bytes: what
/// stands before it, and what stands between it and the next one, or the end
/// of the line. A line without the separator has no parts.
pub open spec fn spec_split_pair(line: Seq<u8>, separator: u8) -> Option<(Seq<u8>, Seq<u8>)> {
    match spec_first_index(line, spec_is_byte(separator)) {
        Some(i) => Some((line.take(i), spec_before(line.skip(i + 1), separator))),
        None => None,
    }
}

/// The two parts of a line of text around its first `separator`, where the
/// line has the separator and each part is text of its own.
pub open spec fn spec_text_pair(line: Seq<char>, separator: u8) -> Option<(Seq<char>, Seq<char>)> {
    match spec_split_pair(encode_utf8(line), separator) {
        Some((first, second)) => if valid_utf8(first) && valid_utf8(second) {
            Some((decode_utf8(first), decode_utf8(second)))
        } else {
            None
        },
        None => None,
    }
}

/// Splits a line of text around its first `separator`.
pub fn split_pair(line: &str, separator: u8) -> (r: Option<(String, String)>)
    ensures
        match spec_text_pair(line@, separator) {
            Some((first, second)) => r is Some && (r->0).0@ == first && (r->0).1@ == second,
            None => r is None,
        },
{
    let bytes = line.as_bytes();
    assert(bytes@.skip(0) =~= bytes@);
    let end = match find_byte(bytes, 0, separator) {
        Some(end) => end,
        None => { return None; },
    };
    let from = end + 1;
    let ghost tail = bytes@.skip(from as int);
    let to = match find_byte(bytes, from, separator) {
        Some(next) => {
            assert(bytes@.subrange(from as int, next as int) =~= tail.take(next - from));
            next
        },
        None => {
            assert(bytes@.subrange(from as int, bytes.len() as int) =~= tail);
            bytes.len()
        },
    };
    assert(bytes@.subrange(0, end as int) =~= bytes@.take(end as int));
    let first = match text_of_bytes(bytes, 0, end) {
        Some(first) => first,
        None => { return None; },
    };
    match text_of_bytes(bytes, from, to) {
        Some(second) => Some((first, second)),
        None => None,
    }
}

} // verus!
