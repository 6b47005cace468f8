//! Comparing and searching texts by their UTF-8 bytes.

use vstd::prelude::*;
use vstd::utf8::{encode_utf8, is_char_boundary};

use crate::order::Ordered;

verus! {

/// Whether `needle` stands in `bytes` at offset `at`.
pub open spec fn occurs_at(bytes: Seq<u8>, at: int, needle: Seq<u8>) -> bool {
    &&& 0 <= at
    &&& at + needle.len() <= bytes.len()
    &&& bytes.subrange(at, at + needle.len()) == needle
}

/// The first offset from `from` on at which `needle` stands in `bytes`.
pub open spec fn first_occurrence(bytes: Seq<u8>, from: int, needle: Seq<u8>) -> Option<int>
    decreases bytes.len() + 1 - from,
{
    if from < 0 || bytes.len() < from + needle.len() {
        None
    } else if occurs_at(bytes, from, needle) {
        Some(from)
    } else {
        first_occurrence(bytes, from + 1, needle)
    }
}

/// Whether the text from byte `at` of a source on is `name`, where both ends of
/// it are character boundaries of the source.
pub open spec fn name_at(bytes: Seq<u8>, at: int, name: Seq<u8>) -> bool {
    &&& occurs_at(bytes, at, name)
    &&& is_char_boundary(bytes, at)
    &&& is_char_boundary(bytes, at + name.len())
}

/// Whether `a` comes before `b` byte by byte, a proper prefix coming first.
pub open spec fn bytes_before(a: Seq<u8>, b: Seq<u8>) -> bool
    decreases a.len(),
{
    if b.len() == 0 {
        false
    } else if a.len() == 0 {
        true
    } else if a[0] != b[0] {
        a[0] < b[0]
    } else {
        bytes_before(a.drop_first(), b.drop_first())
    }
}

/// The first occurrence is one, and none is before it.
pub proof fn law_first_occurrence_is_first(bytes: Seq<u8>, from: int, needle: Seq<u8>)
    requires
        0 <= from,
    ensures
        match first_occurrence(bytes, from, needle) {
            Some(at) => {
                &&& from <= at
                &&& occurs_at(bytes, at, needle)
                &&& forall|i: int| from <= i < at ==> !#[trigger] occurs_at(bytes, i, needle)
            },
            None => forall|i: int| from <= i ==> !#[trigger] occurs_at(bytes, i, needle),
        },
    decreases bytes.len() + 1 - from,
{
    if from + needle.len() <= bytes.len() && !occurs_at(bytes, from, needle) {
        law_first_occurrence_is_first(bytes, from + 1, needle);
    }
}

proof fn lemma_bytes_before_irreflexive(a: Seq<u8>)
    ensures
        !bytes_before(a, a),
    decreases a.len(),
{
    if a.len() > 0 {
        lemma_bytes_before_irreflexive(a.drop_first());
    }
}

proof fn lemma_bytes_before_transitive(a: Seq<u8>, b: Seq<u8>, c: Seq<u8>)
    requires
        bytes_before(a, b),
        bytes_before(b, c),
    ensures
        bytes_before(a, c),
    decreases a.len(),
{
    if a.len() > 0 && a[0] == b[0] && b[0] == c[0] {
        lemma_bytes_before_transitive(a.drop_first(), b.drop_first(), c.drop_first());
    }
}

proof fn lemma_bytes_before_total(a: Seq<u8>, b: Seq<u8>)
    ensures
        bytes_before(a, b) || a == b || bytes_before(b, a),
    decreases a.len(),
{
    if a.len() == 0 || b.len() == 0 {
        if a.len() == b.len() {
            assert(a =~= b);
        }
    } else if a[0] == b[0] {
        lemma_bytes_before_total(a.drop_first(), b.drop_first());
        if a.drop_first() == b.drop_first() {
            assert(a =~= seq![a[0]] + a.drop_first());
            assert(b =~= seq![b[0]] + b.drop_first());
        }
    }
}

/// Equal encodings come from equal texts.
pub proof fn lemma_encode_is_injective(a: Seq<char>, b: Seq<char>)
    requires
        encode_utf8(a) == encode_utf8(b),
    ensures
        a == b,
{
    vstd::utf8::encode_utf8_decode_utf8(a);
    vstd::utf8::encode_utf8_decode_utf8(b);
}

/// A needle stands where the bytes from there on are its bytes, one by one.
pub proof fn law_occurrence_is_byte_by_byte(bytes: Seq<u8>, at: int, needle: Seq<u8>)
    ensures
        occurs_at(bytes, at, needle) <==> 0 <= at && at + needle.len() <= bytes.len() && (forall|
            k: int,
        |
            0 <= k < needle.len() ==> bytes[at + k] == #[trigger] needle[k]),
{
    if 0 <= at && at + needle.len() <= bytes.len() {
        let part = bytes.subrange(at, at + needle.len());
        if forall|k: int| 0 <= k < needle.len() ==> bytes[at + k] == #[trigger] needle[k] {
            assert(part =~= needle);
        }
        if part == needle {
            assert forall|k: int| 0 <= k < needle.len() implies bytes[at + k]
                == #[trigger] needle[k] by {
                assert(part[k] == bytes[at + k]);
            }
        }
    }
}

/// A name stands where its bytes are, between two character boundaries.
pub proof fn law_name_stands_between_boundaries(bytes: Seq<u8>, at: int, name: Seq<u8>)
    ensures
        name_at(bytes, at, name) <==> 0 <= at && at + name.len() <= bytes.len() && (forall|k: int|
            0 <= k < name.len() ==> bytes[at + k] == #[trigger] name[k]) && is_char_boundary(
            bytes,
            at,
        ) && is_char_boundary(bytes, at + name.len()),
{
    law_occurrence_is_byte_by_byte(bytes, at, name);
}

/// What two texts have in common at their start does not matter for their order;
/// behind it the smaller byte decides, and a text that ends comes first.
pub proof fn law_bytes_are_ordered_by_first_difference(prefix: Seq<u8>, a: Seq<u8>, b: Seq<u8>)
    ensures
        bytes_before(prefix + a, prefix + b) == bytes_before(a, b),
        !bytes_before(a, Seq::empty()),
        b.len() > 0 ==> bytes_before(Seq::empty(), b),
        a.len() > 0 && b.len() > 0 && a[0] != b[0] ==> bytes_before(a, b) == (a[0] < b[0]),
    decreases prefix.len(),
{
    if prefix.len() == 0 {
        assert(prefix + a =~= a);
        assert(prefix + b =~= b);
    } else {
        law_bytes_are_ordered_by_first_difference(prefix.drop_first(), a, b);
        assert((prefix + a).drop_first() =~= prefix.drop_first() + a);
        assert((prefix + b).drop_first() =~= prefix.drop_first() + b);
    }
}

/// Whether `needle` stands in `bytes` at offset `at`.
pub fn bytes_at(bytes: &[u8], at: usize, needle: &[u8]) -> (r: bool)
    ensures
        r == occurs_at(bytes@, at as int, needle@),
{
    let len: usize = bytes.len();
    if at > len || needle.len() > len - at {
        return false;
    }
    let mut i: usize = 0;
    while i < needle.len()
        invariant
            i <= needle@.len(),
            at + needle@.len() <= len,
            len == bytes@.len(),
            forall|k: int| 0 <= k < i ==> bytes@[at + k] == needle@[k],
        decreases needle@.len() - i,
    {
        if bytes[at + i] != needle[i] {
            assert(bytes@.subrange(at as int, at + needle@.len())[i as int] != needle@[i as int]);
            return false;
        }
        i = i + 1;
    }
    assert(bytes@.subrange(at as int, at + needle@.len()) =~= needle@);
    true
}

/// The first offset from `from` on at which `needle` stands in `bytes`.
pub fn find_bytes(bytes: &[u8], from: usize, needle: &[u8]) -> (r: Option<usize>)
    requires
        from <= bytes@.len(),
    ensures
        match r {
            Some(at) => first_occurrence(bytes@, from as int, needle@) == Some(at as int),
            None => first_occurrence(bytes@, from as int, needle@) is None,
        },
{
    let mut at: usize = from;
    while needle.len() <= bytes.len() - at
        invariant
            at <= bytes@.len(),
            first_occurrence(bytes@, from as int, needle@) == first_occurrence(
                bytes@,
                at as int,
                needle@,
            ),
        decreases bytes@.len() - at,
    {
        if bytes_at(bytes, at, needle) {
            return Some(at);
        }
        if at == bytes.len() {
            assert(first_occurrence(bytes@, at + 1, needle@) is None);
            return None;
        }
        at = at + 1;
    }
    None
}

/// Whether two texts are the same.
pub fn same_text(a: &str, b: &str) -> (r: bool)
    ensures
        r == (a@ == b@),
{
    let x: &[u8] = a.as_bytes();
    let y: &[u8] = b.as_bytes();
    if x.len() != y.len() {
        return false;
    }
    let equal = bytes_at(x, 0, y);
    proof {
        assert(x@.subrange(0, x@.len() as int) =~= x@);
        if equal {
            lemma_encode_is_injective(a@, b@);
        }
    }
    equal
}

/// Whether the text from byte `at` of `source` on is `name`.
pub fn is_name_at(source: &str, at: u32, name: &str) -> (r: bool)
    ensures
        r == name_at(encode_utf8(source@), at as int, encode_utf8(name@)),
{
    let bytes: &[u8] = source.as_bytes();
    let needle: &[u8] = name.as_bytes();
    let at: usize = at as usize;
    let len: usize = bytes.len();
    bytes_at(bytes, at, needle) && at <= len && needle.len() <= len - at
        && source.is_char_boundary(at) && source.is_char_boundary(at + needle.len())
}

/// Whether `a` comes before `b` byte by byte.
fn text_before(a: &str, b: &str) -> (r: bool)
    ensures
        r == bytes_before(encode_utf8(a@), encode_utf8(b@)),
{
    let x: &[u8] = a.as_bytes();
    let y: &[u8] = b.as_bytes();
    let mut i: usize = 0;
    assert(x@.skip(0) =~= x@);
    assert(y@.skip(0) =~= y@);
    while i < x.len() && i < y.len()
        invariant
            i <= x@.len(),
            i <= y@.len(),
            x@ == encode_utf8(a@),
            y@ == encode_utf8(b@),
            bytes_before(x@, y@) == bytes_before(x@.skip(i as int), y@.skip(i as int)),
        decreases x@.len() - i,
    {
        assert(x@.skip(i as int)[0] == x@[i as int] && y@.skip(i as int)[0] == y@[i as int]);
        if x[i] != y[i] {
            return x[i] < y[i];
        }
        assert(x@.skip(i as int).drop_first() =~= x@.skip(i + 1));
        assert(y@.skip(i as int).drop_first() =~= y@.skip(i + 1));
        i = i + 1;
    }
    i < y.len()
}

impl Ordered for String {
    open spec fn before(a: Seq<char>, b: Seq<char>) -> bool {
        bytes_before(encode_utf8(a), encode_utf8(b))
    }

    proof fn before_is_irreflexive(a: Seq<char>) {
        lemma_bytes_before_irreflexive(encode_utf8(a));
    }

    proof fn before_is_transitive(a: Seq<char>, b: Seq<char>, c: Seq<char>) {
        lemma_bytes_before_transitive(encode_utf8(a), encode_utf8(b), encode_utf8(c));
    }

    proof fn before_is_total(a: Seq<char>, b: Seq<char>) {
        lemma_bytes_before_total(encode_utf8(a), encode_utf8(b));
        if encode_utf8(a) == encode_utf8(b) {
            lemma_encode_is_injective(a, b);
        }
    }

    fn is_before(&self, other: &String) -> (r: bool) {
        text_before(self.as_str(), other.as_str())
    }
}

/// Texts are ordered by their bytes.
pub proof fn law_texts_are_ordered_by_bytes(a: Seq<char>, b: Seq<char>)
    ensures
        <String as Ordered>::before(a, b) == bytes_before(encode_utf8(a), encode_utf8(b)),
{
}

} // verus!
