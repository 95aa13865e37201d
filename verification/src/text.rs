//! Small verified operations on strings: equality, byte-wise ordering,
//! prefixes and substrings.

use vstd::prelude::*;
use vstd::utf8::encode_utf8;

verus! {

broadcast use vstd::utf8::group_utf8_lib;

/// The UTF-8 bytes of a sequence of characters.
pub open spec fn utf8(s: Seq<char>) -> Seq<u8> {
    encode_utf8(s)
}

/// Whether two strings are equal.
pub fn str_eq(a: &str, b: &str) -> (r: bool)
    ensures
        r == (a@ == b@),
{
    let x = a.as_bytes();
    let y = b.as_bytes();
    if x.len() != y.len() {
        proof {
            if a@ == b@ {
                assert(x@ == y@);
            }
        }
        return false;
    }
    let mut i: usize = 0;
    while i < x.len()
        invariant
            i <= x@.len(),
            x@.len() == y@.len(),
            x@ == utf8(a@),
            y@ == utf8(b@),
            forall|j: int| 0 <= j < i ==> x@[j] == y@[j],
        decreases x@.len() - i,
    {
        if x[i] != y[i] {
            return false;
        }
        i = i + 1;
    }
    proof {
        assert(x@ =~= y@);
        vstd::utf8::encode_utf8_decode_utf8(a@);
        vstd::utf8::encode_utf8_decode_utf8(b@);
    }
    true
}

/// Byte-wise lexicographic order: `a` comes no later than `b`.
pub open spec fn bytes_le(a: Seq<u8>, b: Seq<u8>) -> bool
    decreases a.len(),
{
    if a.len() == 0 {
        true
    } else if b.len() == 0 {
        false
    } else if a[0] != b[0] {
        a[0] < b[0]
    } else {
        bytes_le(a.drop_first(), b.drop_first())
    }
}

/// The order is total.
pub proof fn lemma_bytes_le_total(a: Seq<u8>, b: Seq<u8>)
    ensures
        bytes_le(a, b) || bytes_le(b, a),
    decreases a.len(),
{
    if a.len() > 0 && b.len() > 0 && a[0] == b[0] {
        lemma_bytes_le_total(a.drop_first(), b.drop_first());
    }
}

/// The order is transitive.
pub proof fn lemma_bytes_le_trans(a: Seq<u8>, b: Seq<u8>, c: Seq<u8>)
    requires
        bytes_le(a, b),
        bytes_le(b, c),
    ensures
        bytes_le(a, c),
    decreases a.len(),
{
    if a.len() > 0 && b.len() > 0 && c.len() > 0 && a[0] == b[0] && b[0] == c[0] {
        lemma_bytes_le_trans(a.drop_first(), b.drop_first(), c.drop_first());
    }
}

/// Whether `a` comes no later than `b` in byte-wise order.
pub fn str_le(a: &str, b: &str) -> (r: bool)
    ensures
        r == bytes_le(utf8(a@), utf8(b@)),
{
    let x = a.as_bytes();
    let y = b.as_bytes();
    let mut i: usize = 0;
    proof {
        assert(x@.skip(0) =~= x@);
        assert(y@.skip(0) =~= y@);
    }
    while i < x.len() && i < y.len() && x[i] == y[i]
        invariant
            i <= x@.len(),
            i <= y@.len(),
            x@ == utf8(a@),
            y@ == utf8(b@),
            bytes_le(x@, y@) == bytes_le(x@.skip(i as int), y@.skip(i as int)),
        decreases x@.len() - i,
    {
        proof {
            let xs = x@.skip(i as int);
            let ys = y@.skip(i as int);
            assert(xs.drop_first() =~= x@.skip(i + 1));
            assert(ys.drop_first() =~= y@.skip(i + 1));
        }
        i = i + 1;
    }
    proof {
        let xs = x@.skip(i as int);
        let ys = y@.skip(i as int);
        if i < x@.len() && i < y@.len() {
            assert(xs[0] == x@[i as int]);
            assert(ys[0] == y@[i as int]);
        }
    }
    if i == x.len() {
        true
    } else if i == y.len() {
        false
    } else {
        x[i] < y[i]
    }
}


/// Encoding a concatenation encodes each part.
pub proof fn lemma_utf8_concat(a: Seq<char>, b: Seq<char>)
    ensures
        utf8(a + b) == utf8(a) + utf8(b),
    decreases a.len(),
{
    if a.len() == 0 {
        assert(a + b =~= b);
        assert(utf8(a) =~= Seq::<u8>::empty());
        assert(utf8(a) + utf8(b) =~= utf8(b));
    } else {
        lemma_utf8_concat(a.drop_first(), b);
        assert((a + b).drop_first() =~= a.drop_first() + b);
        assert((a + b)[0] == a[0]);
        assert(utf8(a + b) =~= utf8(a) + utf8(b));
    }
}

/// The byte span `start..end` of the text lies on character boundaries.
pub open spec fn is_text_span(text: Seq<char>, start: int, end: int) -> bool {
    &&& 0 <= start <= end <= utf8(text).len()
    &&& vstd::utf8::is_char_boundary(utf8(text), start)
    &&& vstd::utf8::is_char_boundary(utf8(text), end)
}

/// The text of the byte span `start..end` of the source.
pub fn substring(source: &str, start: usize, end: usize) -> (r: String)
    requires
        is_text_span(source@, start as int, end as int),
    ensures
        utf8(r@) == utf8(source@).subrange(start as int, end as int),
{
    let ghost b = utf8(source@);
    proof {
        vstd::utf8::encode_utf8_valid_utf8(source@);
    }
    let (a, _rest) = source.split_at(end);
    proof {
        let ab = b.subrange(0, end as int);
        assert(utf8(a@) == ab);
        vstd::utf8::valid_utf8_split(b, end as int);
        if start < end {
            vstd::utf8::is_char_boundary_iff_not_is_continuation_byte(b, start as int);
            vstd::utf8::is_char_boundary_iff_not_is_continuation_byte(ab, start as int);
            assert(ab[start as int] == b[start as int]);
        } else {
            vstd::utf8::is_char_boundary_start_end_of_seq(ab);
        }
    }
    let (_head, c) = a.split_at(start);
    proof {
        assert(utf8(c@) =~= b.subrange(start as int, end as int));
    }
    c.to_owned()
}

/// Whether a string starts with the given prefix.
pub fn starts_with(s: &str, prefix: &str) -> (r: bool)
    ensures
        r == utf8(prefix@).is_prefix_of(utf8(s@)),
{
    let x = s.as_bytes();
    let p = prefix.as_bytes();
    if p.len() > x.len() {
        return false;
    }
    let mut i: usize = 0;
    while i < p.len()
        invariant
            i <= p@.len() <= x@.len(),
            x@ == utf8(s@),
            p@ == utf8(prefix@),
            forall|j: int| 0 <= j < i ==> p@[j] == x@[j],
        decreases p@.len() - i,
    {
        if p[i] != x[i] {
            return false;
        }
        i = i + 1;
    }
    true
}

/// `needle` occurs in `hay` at byte offset `k`.
pub open spec fn occurs_at(hay: Seq<u8>, needle: Seq<u8>, k: int) -> bool {
    0 <= k && k + needle.len() <= hay.len() && hay.subrange(k, k + needle.len()) == needle
}

/// Whether a string contains the given substring.
pub fn contains(s: &str, needle: &str) -> (r: bool)
    ensures
        r == exists|k: int| occurs_at(utf8(s@), utf8(needle@), k),
{
    let x = s.as_bytes();
    let p = needle.as_bytes();
    if p.len() > x.len() {
        proof {
            assert forall|k: int| !occurs_at(x@, p@, k) by {}
        }
        return false;
    }
    let xl = x.len();
    let last = xl - p.len();
    let mut k: usize = 0;
    while k <= last
        invariant
            x@ == utf8(s@),
            p@ == utf8(needle@),
            p@.len() <= x@.len(),
            xl == x@.len(),
            last == x@.len() - p@.len(),
            forall|j: int| 0 <= j < k ==> !occurs_at(x@, p@, j),
        decreases last + 1 - k,
    {
        let mut i: usize = 0;
        let mut ok = true;
        while i < p.len()
            invariant
                i <= p@.len(),
                k <= last,
                xl == x@.len(),
                p@.len() <= x@.len(),
                last == x@.len() - p@.len(),
                ok ==> forall|j: int| 0 <= j < i ==> p@[j] == x@[k + j],
                !ok ==> !occurs_at(x@, p@, k as int),
            decreases p@.len() - i,
        {
            if ok && p[i] != x[k + i] {
                ok = false;
                proof {
                    if occurs_at(x@, p@, k as int) {
                        assert(x@.subrange(k as int, k + p@.len())[i as int] == p@[i as int]);
                    }
                }
            }
            i = i + 1;
        }
        if ok {
            proof {
                assert(x@.subrange(k as int, k + p@.len()) =~= p@);
                assert(occurs_at(x@, p@, k as int));
            }
            return true;
        }
        if k == last {
            proof {
                assert forall|j: int| !occurs_at(x@, p@, j) by {
                    if 0 <= j && j + p@.len() <= x@.len() {
                        assert(j <= k);
                    }
                }
            }
            return false;
        }
        k = k + 1;
    }
    false
}


/// Different texts have different encodings.
pub proof fn lemma_utf8_injective(a: Seq<char>, b: Seq<char>)
    requires
        utf8(a) == utf8(b),
    ensures
        a == b,
{
    vstd::utf8::encode_utf8_decode_utf8(a);
    vstd::utf8::encode_utf8_decode_utf8(b);
}

/// In valid UTF-8, the position right after a character boundary that holds
/// an ASCII byte is a character boundary too.
proof fn lemma_boundary_after_ascii(b: Seq<u8>, k: int)
    requires
        vstd::utf8::valid_utf8(b),
        0 <= k < b.len(),
        vstd::utf8::is_char_boundary(b, k),
        b[k] <= 0x7f,
    ensures
        vstd::utf8::is_char_boundary(b, k + 1),
    decreases b.len(),
{
    let l = vstd::utf8::length_of_first_scalar(b);
    let p = vstd::utf8::pop_first_scalar(b);
    assert(1 <= l <= 4);
    assert(p.len() == b.len() - l);
    if k == 0 {
        assert(l == 1);
        assert(vstd::utf8::is_char_boundary(p, 0));
    } else {
        assert(vstd::utf8::is_char_boundary(p, k - l));
        assert(k - l >= 0);
        assert(p[k - l] == b[k]);
        lemma_boundary_after_ascii(p, k - l);
    }
}

/// An ASCII byte of an encoded text starts a character and ends one: both
/// sides of it are character boundaries.
pub proof fn lemma_ascii_byte_boundaries(s: Seq<char>, k: int)
    requires
        0 <= k < utf8(s).len(),
        utf8(s)[k] <= 0x7f,
    ensures
        is_text_span(s, 0, k),
        is_text_span(s, k + 1, utf8(s).len() as int),
{
    let b = utf8(s);
    vstd::utf8::encode_utf8_valid_utf8(s);
    vstd::utf8::is_char_boundary_iff_not_is_continuation_byte(b, k);
    vstd::utf8::is_char_boundary_start_end_of_seq(b);
    lemma_boundary_after_ascii(b, k);
}

} // verus!
