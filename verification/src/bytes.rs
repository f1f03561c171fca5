//! Byte strings: searching them, and reading text from them.
use vstd::prelude::*;
use vstd::utf8::{decode_utf8, valid_utf8};

verus! {

/// Whether two byte strings are equal.
pub fn same_bytes(a: &[u8], b: &[u8]) -> (r: bool)
    ensures
        r == (a@ == b@),
{
    if a.len() != b.len() {
        return false;
    }
    let mut i: usize = 0;
    while i < a.len()
        invariant
            i <= a@.len(),
            a@.len() == b@.len(),
            forall|j: int| 0 <= j < i ==> a@[j] == b@[j],
        decreases a@.len() - i,
    {
        if a[i] != b[i] {
            return false;
        }
        i += 1;
    }
    assert(a@ =~= b@);
    true
}

/// Where `needle` first occurs in `bytes`.
pub open spec fn find_bytes_view(bytes: Seq<u8>, needle: Seq<u8>) -> Option<int>
    decreases bytes.len(),
{
    if bytes.len() < needle.len() {
        None
    } else if bytes.take(needle.len() as int) == needle {
        Some(0)
    } else if bytes.len() == 0 {
        None
    } else {
        match find_bytes_view(bytes.skip(1), needle) {
            Some(i) => Some(i + 1),
            None => None,
        }
    }
}

/// What is found lies within the bytes and is the needle.
pub proof fn lemma_find_bytes(bytes: Seq<u8>, needle: Seq<u8>)
    ensures
        match find_bytes_view(bytes, needle) {
            Some(i) => 0 <= i && i + needle.len() <= bytes.len() && bytes.subrange(
                i,
                i + needle.len(),
            ) == needle,
            None => true,
        },
    decreases bytes.len(),
{
    if bytes.len() < needle.len() {
    } else if bytes.take(needle.len() as int) == needle {
        assert(bytes.subrange(0, needle.len() as int) =~= bytes.take(needle.len() as int));
    } else if bytes.len() == 0 {
    } else {
        lemma_find_bytes(bytes.skip(1), needle);
        match find_bytes_view(bytes.skip(1), needle) {
            Some(i) => {
                assert(bytes.subrange(i + 1, i + 1 + needle.len()) =~= bytes.skip(1).subrange(
                    i,
                    i + needle.len(),
                ));
            },
            None => {},
        }
    }
}

/// Finds the first occurrence of `needle`.
pub fn find_bytes(bytes: &[u8], needle: &[u8]) -> (r: Option<usize>)
    requires
        needle@.len() > 0,
    ensures
        find_bytes_view(bytes@, needle@) == match r {
            Some(i) => Some(i as int),
            None => None,
        },
        r matches Some(i) ==> i + needle@.len() <= bytes@.len(),
{
    let ghost goal = find_bytes_view(bytes@, needle@);
    let mut i: usize = 0;
    assert(bytes@.skip(0) =~= bytes@);
    while i < bytes.len() && bytes.len() - i >= needle.len()
        invariant
            i <= bytes@.len(),
            needle@.len() > 0,
            goal == find_bytes_view(bytes@, needle@),
            goal == match find_bytes_view(bytes@.skip(i as int), needle@) {
                Some(k) => Some(k + i),
                None => None,
            },
        decreases bytes@.len() - i,
    {
        let window = vstd::slice::slice_subrange(bytes, i, i + needle.len());
        assert(bytes@.skip(i as int).take(needle@.len() as int) =~= window@);
        if same_bytes(window, needle) {
            return Some(i);
        }
        assert(bytes@.skip(i as int).skip(1) =~= bytes@.skip(i + 1));
        i += 1;
    }
    None
}

/// Whether the byte is ASCII whitespace.
pub open spec fn is_ascii_space(b: u8) -> bool {
    b == 0x20 || b == 0x09 || b == 0x0a || b == 0x0c || b == 0x0d
}

/// Whether every byte is ASCII whitespace.
pub open spec fn all_ascii_space(bytes: Seq<u8>) -> bool {
    forall|i: int| 0 <= i < bytes.len() ==> is_ascii_space(#[trigger] bytes[i])
}

/// Whether every byte is ASCII whitespace.
pub fn is_blank(bytes: &[u8]) -> (r: bool)
    ensures
        r == all_ascii_space(bytes@),
{
    let mut i: usize = 0;
    while i < bytes.len()
        invariant
            i <= bytes@.len(),
            forall|j: int| 0 <= j < i ==> is_ascii_space(#[trigger] bytes@[j]),
        decreases bytes@.len() - i,
    {
        let b = bytes[i];
        if !(b == 0x20 || b == 0x09 || b == 0x0a || b == 0x0c || b == 0x0d) {
            assert(!is_ascii_space(bytes@[i as int]));
            return false;
        }
        i += 1;
    }
    true
}

/// Why bytes are no UTF-8 text.
pub uninterp spec fn utf8_error(bytes: Seq<u8>) -> Seq<char>;

/// Calls `std::str::from_utf8`: the text that the bytes encode, where they are valid UTF-8. The
/// message of a failure depends on the bytes alone.
#[verifier::external_body]
pub(crate) fn read_utf8(bytes: &[u8]) -> (r: Result<String, String>)
    ensures
        match r {
            Ok(text) => valid_utf8(bytes@) && text@ == decode_utf8(bytes@),
            Err(message) => !valid_utf8(bytes@) && message@ == utf8_error(bytes@),
        },
{
    std::str::from_utf8(bytes).map(|text| text.to_owned()).map_err(|error| error.to_string())
}

/// The text of bytes in which every invalid part is replaced.
pub uninterp spec fn lossy_text(bytes: Seq<u8>) -> Seq<char>;

/// Calls `String::from_utf8_lossy`. Valid UTF-8 is read as it is; how invalid parts are replaced
/// depends on the bytes alone.
#[verifier::external_body]
pub(crate) fn read_lossy(bytes: &[u8]) -> (text: String)
    ensures
        text@ == lossy_text(bytes@),
        valid_utf8(bytes@) ==> text@ == decode_utf8(bytes@),
{
    String::from_utf8_lossy(bytes).into_owned()
}

} // verus!
