//! The names of sample files: an element sample is named
//! `<element>-<NN>-<hint>.lex` and a document sample `<NNN>-<hint>.lex`.
//! These functions build the name patterns and read sample numbers back out
//! of file names; listing directories is left to the caller.

use crate::harness::{element_word, ElementType};
use crate::messages::{cat2, cat3, cat4, cat6, decimal_string};
use crate::text::utf8;
use vstd::prelude::*;

verus! {

/// The collections of whole sample documents.
#[derive(Debug, Clone, Copy, PartialEq, Eq, Structural)]
pub enum DocumentType {
    Benchmark,
    Trifecta,
}

impl DocumentType {
    /// The directory of the collection.
    pub fn dir_name(&self) -> (r: &'static str)
        ensures
            *self == DocumentType::Benchmark ==> r@ == "benchmark"@,
            *self == DocumentType::Trifecta ==> r@ == "trifecta"@,
    {
        match self {
            DocumentType::Benchmark => "benchmark",
            DocumentType::Trifecta => "trifecta",
        }
    }
}

// ---------------------------------------------------------------------------
// Decimal numbers
// ---------------------------------------------------------------------------

/// An ASCII digit.
pub open spec fn is_digit(b: u8) -> bool {
    48 <= b <= 57
}

/// The value of a sequence of decimal digits.
pub open spec fn digits_value(d: Seq<u8>) -> nat
    decreases d.len(),
{
    if d.len() == 0 {
        0
    } else {
        digits_value(d.drop_last()) * 10 + (d.last() - 48) as nat
    }
}

/// The text without a leading `+`.
pub open spec fn sign_dropped(s: Seq<u8>) -> Seq<u8> {
    if s.len() > 0 && s[0] == 43 {
        s.drop_first()
    } else {
        s
    }
}

/// The number a text denotes as `usize` reads it: an optional `+`, then one
/// or more decimal digits, with a value that fits in `usize`.
pub open spec fn usize_text(s: Seq<u8>) -> Option<nat> {
    let d = sign_dropped(s);
    if d.len() > 0 && (forall|i: int| 0 <= i < d.len() ==> is_digit(#[trigger] d[i])) && digits_value(d)
        <= usize::MAX {
        Some(digits_value(d))
    } else {
        None
    }
}

proof fn lemma_digits_grow(d: Seq<u8>, k: int)
    requires
        0 <= k <= d.len(),
        forall|i: int| 0 <= i < d.len() ==> is_digit(#[trigger] d[i]),
    ensures
        digits_value(d.take(k)) <= digits_value(d),
    decreases d.len() - k,
{
    if k < d.len() {
        lemma_digits_grow(d, k + 1);
        assert(d.take(k + 1).drop_last() =~= d.take(k));
    } else {
        assert(d.take(k) =~= d);
    }
}

/// The number the bytes `lo..hi` denote (see `usize_text`).
pub fn parse_usize(b: &[u8], lo: usize, hi: usize) -> (r: Option<usize>)
    requires
        lo <= hi <= b@.len(),
    ensures
        match usize_text(b@.subrange(lo as int, hi as int)) {
            Some(n) => r == Some(n as usize),
            None => r is None,
        },
{
    let ghost s = b@.subrange(lo as int, hi as int);
    let mut start = lo;
    if lo < hi && b[lo] == 43u8 {
        start = lo + 1;
    }
    let ghost d = b@.subrange(start as int, hi as int);
    proof {
        if lo < hi && b@[lo as int] == 43u8 {
            assert(s.drop_first() =~= d);
        } else {
            assert(s =~= d);
        }
    }
    if start == hi {
        return None;
    }
    let mut n: usize = 0;
    let mut i = start;
    while i < hi
        invariant
            lo <= start <= i <= hi <= b@.len(),
            d == b@.subrange(start as int, hi as int),
            s == b@.subrange(lo as int, hi as int),
            d == sign_dropped(s),
            forall|j: int| 0 <= j < i - start ==> is_digit(#[trigger] d[j]),
            n == digits_value(d.take(i - start)),
        decreases hi - i,
    {
        let c = b[i];
        if c < 48u8 || c > 57u8 {
            proof {
                assert(d[i - start] == c);
                assert(!is_digit(d[i - start]));
                assert(!(forall|j: int| 0 <= j < d.len() ==> is_digit(#[trigger] d[j])));
                assert(usize_text(s) is None);
            }
            return None;
        }
        proof {
            assert(d.take(i - start + 1).drop_last() =~= d.take(i - start));
            assert(d.take(i - start + 1).last() == c);
        }
        let m = n.checked_mul(10);
        let next = match m {
            Some(m) => m.checked_add((c - 48u8) as usize),
            None => None,
        };
        match next {
            Some(v) => {
                n = v;
            },
            None => {
                proof {
                    assert forall|j: int| 0 <= j < i - start + 1 implies is_digit(
                        #[trigger] d.take(i - start + 1)[j],
                    ) by {
                        assert(d.take(i - start + 1)[j] == d[j]);
                    }
                    assert(digits_value(d.take(i - start + 1)) == n * 10 + (c - 48) as nat);
                    assert(digits_value(d.take(i - start + 1)) > usize::MAX);
                    if forall|j: int| 0 <= j < d.len() ==> is_digit(#[trigger] d[j]) {
                        lemma_digits_grow(d, i - start + 1);
                    }
                    assert(usize_text(s) is None);
                }
                return None;
            },
        }
        i = i + 1;
    }
    proof {
        assert(d.take(i - start) =~= d);
    }
    Some(n)
}

/// The decimal digits of a number, most significant first, without
/// leading zeros (`0` for zero).
pub open spec fn decimal(n: nat) -> Seq<char>
    decreases n,
{
    if n < 10 {
        seq![digit_char(n)]
    } else {
        decimal(n / 10).push(digit_char(n % 10))
    }
}

/// The character of a digit.
pub open spec fn digit_char(d: nat) -> char {
    if d == 0 {
        '0'
    } else if d == 1 {
        '1'
    } else if d == 2 {
        '2'
    } else if d == 3 {
        '3'
    } else if d == 4 {
        '4'
    } else if d == 5 {
        '5'
    } else if d == 6 {
        '6'
    } else if d == 7 {
        '7'
    } else if d == 8 {
        '8'
    } else {
        '9'
    }
}

/// The number in decimal, with zeros in front up to the given width.
pub open spec fn zero_padded(n: nat, width: nat) -> Seq<char> {
    let d = decimal(n);
    if d.len() < width {
        Seq::new((width - d.len()) as nat, |i: int| '0') + d
    } else {
        d
    }
}

/// The text of a digit.
fn digit_str(d: usize) -> (r: &'static str)
    requires
        d < 10,
    ensures
        r@ == seq![digit_char(d as nat)],
{
    proof {
        reveal_strlit("0");
        reveal_strlit("1");
        reveal_strlit("2");
        reveal_strlit("3");
        reveal_strlit("4");
        reveal_strlit("5");
        reveal_strlit("6");
        reveal_strlit("7");
        reveal_strlit("8");
        reveal_strlit("9");
    }
    if d == 0 {
        "0"
    } else if d == 1 {
        "1"
    } else if d == 2 {
        "2"
    } else if d == 3 {
        "3"
    } else if d == 4 {
        "4"
    } else if d == 5 {
        "5"
    } else if d == 6 {
        "6"
    } else if d == 7 {
        "7"
    } else if d == 8 {
        "8"
    } else {
        "9"
    }
}

/// Append the decimal digits of a number.
fn push_decimal(out: &mut String, n: usize)
    ensures
        final(out)@ == old(out)@ + decimal(n as nat),
    decreases n,
{
    if n >= 10 {
        push_decimal(out, n / 10);
    }
    out.append(digit_str(n % 10));
    proof {
        if n >= 10 {
            assert(old(out)@ + decimal(n as nat) =~= old(out)@ + decimal((n / 10) as nat) + seq![
                digit_char((n % 10) as nat),
            ]);
        } else {
            assert(n % 10 == n);
        }
    }
}

proof fn lemma_decimal_len(n: nat)
    ensures
        decimal(n).len() >= 1,
        n < 10 ==> decimal(n).len() == 1,
        10 <= n < 100 ==> decimal(n).len() == 2,
        n >= 10 ==> decimal(n).len() >= 2,
        n >= 100 ==> decimal(n).len() >= 3,
    decreases n,
{
    if n >= 10 {
        lemma_decimal_len(n / 10);
    }
}

/// Append the number in decimal, padded with zeros to the width.
fn push_padded(out: &mut String, n: usize, width: usize)
    requires
        width <= 3,
    ensures
        final(out)@ == old(out)@ + zero_padded(n as nat, width as nat),
{
    proof {
        lemma_decimal_len(n as nat);
        reveal_strlit("0");
    }
    let ghost o = out@;
    if width == 3 && n < 10 {
        out.append("0");
        out.append("0");
        proof {
            assert(zero_padded(n as nat, 3) =~= seq!['0', '0'] + decimal(n as nat));
        }
    } else if (width == 3 && n < 100) || (width == 2 && n < 10) {
        out.append("0");
        proof {
            assert(zero_padded(n as nat, width as nat) =~= seq!['0'] + decimal(n as nat));
        }
    } else {
        proof {
            assert(zero_padded(n as nat, width as nat) == decimal(n as nat));
        }
    }
    let ghost mid = out@;
    push_decimal(out, n);
    proof {
        assert(out@ =~= o + zero_padded(n as nat, width as nat));
    }
}

// ---------------------------------------------------------------------------
// Sample file names
// ---------------------------------------------------------------------------

/// `<element>-<NN>-`, the start of the names of an element's sample with
/// the given number.
pub open spec fn element_pattern(e: ElementType, number: nat) -> Seq<char> {
    element_word(e) + "-"@ + zero_padded(number, 2) + "-"@
}

/// The start of the names of an element's sample with the given number.
pub fn element_file_pattern(element_type: ElementType, number: usize) -> (r: String)
    ensures
        r@ == element_pattern(element_type, number as nat),
{
    let mut out = element_type.prefix().to_owned();
    out.append("-");
    push_padded(&mut out, number, 2);
    out.append("-");
    proof {
        assert(out@ =~= element_pattern(element_type, number as nat));
    }
    out
}

/// `<NNN>-`, the start of the names of a document sample with the given
/// number.
pub fn document_file_pattern(number: usize) -> (r: String)
    ensures
        r@ == zero_padded(number as nat, 3) + "-"@,
{
    let mut out = String::new();
    push_padded(&mut out, number, 3);
    out.append("-");
    proof {
        assert(out@ =~= zero_padded(number as nat, 3) + "-"@);
    }
    out
}

/// A sample file name: it starts with the pattern and ends in `.lex`.
pub open spec fn is_sample_name(name: Seq<u8>, pattern: Seq<u8>) -> bool {
    &&& pattern.is_prefix_of(name)
    &&& ".lex"@.len() <= name.len()
    &&& name.subrange(name.len() - 4, name.len() as int) == utf8(".lex"@)
}

/// Whether the bytes end in `.lex`.
fn ends_with_lex(b: &[u8]) -> (r: bool)
    ensures
        r == (4 <= b@.len() && b@.subrange(b@.len() - 4, b@.len() as int) == utf8(".lex"@)),
{
    proof {
        reveal_strlit(".lex");
        assert(utf8(".lex"@) =~= seq![46u8, 108u8, 101u8, 120u8]) by {
            let c = ".lex"@;
            assert(c =~= seq!['.', 'l', 'e', 'x']);
            assert(vstd::utf8::is_ascii_chars(c));
            vstd::utf8::is_ascii_chars_encode_utf8(c);
            assert(c[0] as u8 == 46u8);
            assert(c[1] as u8 == 108u8);
            assert(c[2] as u8 == 101u8);
            assert(c[3] as u8 == 120u8);
        }
    }
    let n = b.len();
    if n < 4 {
        return false;
    }
    let ok = b[n - 4] == 46u8 && b[n - 3] == 108u8 && b[n - 2] == 101u8 && b[n - 1] == 120u8;
    proof {
        if ok {
            assert(b@.subrange(n - 4, n as int) =~= seq![46u8, 108u8, 101u8, 120u8]);
        } else {
            let t = b@.subrange(n - 4, n as int);
            assert(t[0] == b@[n - 4] && t[1] == b@[n - 3] && t[2] == b@[n - 2] && t[3] == b@[n - 1]);
        }
    }
    ok
}

/// Whether the file name is a sample name for the pattern.
pub fn is_sample_file(name: &str, pattern: &str) -> (r: bool)
    ensures
        r == is_sample_name(utf8(name@), utf8(pattern@)),
{
    let b = name.as_bytes();
    proof {
        reveal_strlit(".lex");
    }
    crate::text::starts_with(name, pattern) && ends_with_lex(b)
}

/// The positions of the sample names for the pattern, in order.
pub fn select_sample_files(names: &Vec<String>, pattern: &str) -> (r: Vec<usize>)
    ensures
        forall|i: int| 0 <= i < r@.len() ==> (#[trigger] r@[i]) < names@.len(),
        forall|i: int, j: int| 0 <= i < j < r@.len() ==> r@[i] < r@[j],
        forall|k: int|
            0 <= k < names@.len() ==> (is_sample_name(utf8(names@[k]@), utf8(pattern@)) <==> exists|i: int|
                0 <= i < r@.len() && #[trigger] r@[i] == k),
{
    let mut out: Vec<usize> = Vec::new();
    let mut k: usize = 0;
    while k < names.len()
        invariant
            k <= names@.len(),
            forall|i: int| 0 <= i < out@.len() ==> (#[trigger] out@[i]) < k,
            forall|i: int, j: int| 0 <= i < j < out@.len() ==> out@[i] < out@[j],
            forall|m: int|
                0 <= m < k ==> (is_sample_name(utf8(names@[m]@), utf8(pattern@)) <==> exists|i: int|
                    0 <= i < out@.len() && #[trigger] out@[i] == m),
        decreases names@.len() - k,
    {
        let ghost before = out@;
        let hit = is_sample_file(names[k].as_str(), pattern);
        if hit {
            out.push(k);
        }
        proof {
            assert(hit ==> out@ == before.push(k as usize));
            assert(!hit ==> out@ == before);
            assert forall|m: int|
                0 <= m < k + 1 implies (is_sample_name(utf8(names@[m]@), utf8(pattern@)) <==> exists|i: int|
                0 <= i < out@.len() && #[trigger] out@[i] == m) by {
                if m == k && hit {
                    assert(out@[out@.len() - 1] == k);
                }
                if m < k {
                    if exists|i: int| 0 <= i < before.len() && #[trigger] before[i] == m {
                        let i = choose|i: int| 0 <= i < before.len() && #[trigger] before[i] == m;
                        assert(out@[i] == before[i]);
                    }
                    if exists|i: int| 0 <= i < out@.len() && #[trigger] out@[i] == m {
                        let i = choose|i: int| 0 <= i < out@.len() && #[trigger] out@[i] == m;
                        assert(i < before.len());
                        assert(before[i] == out@[i]);
                    }
                }
                if m == k && !hit {
                    if exists|i: int| 0 <= i < out@.len() && #[trigger] out@[i] == m {
                        let i = choose|i: int| 0 <= i < out@.len() && #[trigger] out@[i] == m;
                        assert(before[i] < k);
                    }
                }
            }
        }
        k = k + 1;
    }
    out
}

/// The position of the first `-` in the bytes, or their length.
pub open spec fn first_dash(s: Seq<u8>) -> int
    decreases s.len(),
{
    if s.len() == 0 || s[0] == 45 {
        0
    } else {
        1 + first_dash(s.drop_first())
    }
}

/// The number in the name of an element sample: the name starts with
/// `<prefix>-` and ends in `.lex`, and the text from there up to the next
/// `-` (or the end) reads as a number.
pub open spec fn sample_number(name: Seq<u8>, prefix: Seq<u8>) -> Option<nat> {
    let dash = prefix.push(45u8);
    if dash.is_prefix_of(name) && 4 <= name.len() && name.subrange(name.len() - 4, name.len() as int)
        == utf8(".lex"@) {
        let rest = name.skip(dash.len() as int);
        usize_text(rest.take(first_dash(rest)))
    } else {
        None
    }
}

proof fn lemma_first_dash_bound(s: Seq<u8>)
    ensures
        0 <= first_dash(s) <= s.len(),
    decreases s.len(),
{
    if s.len() > 0 && s[0] != 45 {
        lemma_first_dash_bound(s.drop_first());
    }
}

/// The number in the name of an element sample with the prefix.
pub fn sample_number_of(name: &str, prefix: &str) -> (r: Option<usize>)
    ensures
        match sample_number(utf8(name@), utf8(prefix@)) {
            Some(n) => r == Some(n as usize),
            None => r is None,
        },
{
    let b = name.as_bytes();
    let pl = prefix.as_bytes().len();
    let ghost dash = utf8(prefix@).push(45u8);
    if !(crate::text::starts_with(name, prefix) && pl < b.len() && b[pl] == 45u8) {
        proof {
            if dash.is_prefix_of(b@) {
                assert(b@[pl as int] == dash[pl as int]);
                assert forall|i: int| 0 <= i < pl implies utf8(prefix@)[i] == b@[i] by {
                    assert(dash[i] == utf8(prefix@)[i]);
                }
            }
        }
        return None;
    }
    proof {
        assert forall|i: int| 0 <= i < dash.len() implies dash[i] == b@[i] by {
            if i < pl {
                assert(dash[i] == utf8(prefix@)[i]);
            }
        }
    }
    if !ends_with_lex(b) {
        return None;
    }
    let start = pl + 1;
    let mut j = start;
    proof {
        lemma_first_dash_bound(b@.skip(start as int));
        assert(b@.skip(j as int) =~= b@.skip(start as int));
    }
    while j < b.len() && b[j] != 45u8
        invariant
            start <= j <= b@.len(),
            first_dash(b@.skip(start as int)) == (j - start) + first_dash(b@.skip(j as int)),
        decreases b@.len() - j,
    {
        proof {
            assert(b@.skip(j as int).drop_first() =~= b@.skip(j + 1));
            assert(b@.skip(j as int)[0] == b@[j as int]);
        }
        j = j + 1;
    }
    proof {
        if j < b@.len() {
            assert(b@.skip(j as int)[0] == b@[j as int]);
        }
        let rest = b@.skip(start as int);
        assert(first_dash(rest) == j - start);
        assert(rest.take(j - start) =~= b@.subrange(start as int, j as int));
    }
    parse_usize(b, start, j)
}

/// Put a number into a strictly increasing list, where it is not yet.
fn insert_sorted(v: &mut Vec<usize>, x: usize)
    requires
        forall|i: int, j: int| 0 <= i < j < old(v)@.len() ==> old(v)@[i] < old(v)@[j],
    ensures
        forall|i: int, j: int| 0 <= i < j < final(v)@.len() ==> final(v)@[i] < final(v)@[j],
        forall|y: usize| final(v)@.contains(y) <==> (old(v)@.contains(y) || y == x),
{
    let mut i: usize = 0;
    while i < v.len() && v[i] < x
        invariant
            i <= v@.len(),
            v@ == old(v)@,
            forall|k: int| 0 <= k < i ==> v@[k] < x,
        decreases v@.len() - i,
    {
        i = i + 1;
    }
    if i < v.len() && v[i] == x {
        proof {
            assert(v@[i as int] == x);
            assert(v@.contains(x));
        }
        return;
    }
    let ghost before = v@;
    v.insert(i, x);
    proof {
        assert(v@ =~= before.subrange(0, i as int).push(x) + before.subrange(i as int, before.len() as int));
        assert forall|k: int| 0 <= k < i implies v@[k] == before[k] by {}
        assert forall|k: int| i < k < v@.len() implies v@[k] == before[k - 1] by {}
        assert(v@[i as int] == x);
        assert forall|y: usize| v@.contains(y) <==> (before.contains(y) || y == x) by {
            if v@.contains(y) {
                let k = choose|k: int| 0 <= k < v@.len() && v@[k] == y;
                if k < i {
                    assert(before[k] == y);
                } else if k > i {
                    assert(before[k - 1] == y);
                }
            }
            if before.contains(y) {
                let k = choose|k: int| 0 <= k < before.len() && before[k] == y;
                if k < i {
                    assert(v@[k] == y);
                } else {
                    assert(v@[k + 1] == y);
                }
            }
            if y == x {
                assert(v@[i as int] == x);
            }
        }
    }
}

/// The numbers of the element samples among the file names, each once, in
/// increasing order.
pub fn sample_numbers(names: &Vec<String>, prefix: &str) -> (r: Vec<usize>)
    ensures
        forall|i: int, j: int| 0 <= i < j < r@.len() ==> r@[i] < r@[j],
        forall|x: usize|
            r@.contains(x) <==> exists|k: int|
                0 <= k < names@.len() && #[trigger] sample_number(utf8(names@[k]@), utf8(prefix@))
                    == Some(x as nat),
{
    let mut out: Vec<usize> = Vec::new();
    let mut k: usize = 0;
    while k < names.len()
        invariant
            k <= names@.len(),
            forall|i: int, j: int| 0 <= i < j < out@.len() ==> out@[i] < out@[j],
            forall|x: usize|
                out@.contains(x) <==> exists|m: int|
                    0 <= m < k && #[trigger] sample_number(utf8(names@[m]@), utf8(prefix@)) == Some(
                        x as nat,
                    ),
        decreases names@.len() - k,
    {
        let ghost before = out@;
        let n = sample_number_of(names[k].as_str(), prefix);
        match n {
            Some(x) => {
                insert_sorted(&mut out, x);
            },
            None => {},
        }
        proof {
            assert forall|y: usize|
                out@.contains(y) <==> exists|m: int|
                    0 <= m < k + 1 && #[trigger] sample_number(utf8(names@[m]@), utf8(prefix@))
                        == Some(y as nat) by {
                if exists|m: int|
                    0 <= m < k + 1 && #[trigger] sample_number(utf8(names@[m]@), utf8(prefix@))
                        == Some(y as nat) {
                    let m = choose|m: int|
                        0 <= m < k + 1 && #[trigger] sample_number(utf8(names@[m]@), utf8(prefix@))
                            == Some(y as nat);
                    if m < k {
                        assert(before.contains(y));
                    }
                }
                if before.contains(y) {
                    let m = choose|m: int|
                        0 <= m < k && #[trigger] sample_number(utf8(names@[m]@), utf8(prefix@))
                            == Some(y as nat);
                    assert(0 <= m < k + 1);
                }
                if n == Some(y) {
                    assert(sample_number(utf8(names@[k as int]@), utf8(prefix@)) == Some(y as nat));
                }
            }
        }
        k = k + 1;
    }
    out
}

/// The outcome of looking for a sample: no file, exactly one (its
/// position), or several files with the same number (which is fatal), each
/// failure with its message.
#[derive(Debug, PartialEq)]
pub enum SampleMatch {
    Missing(String),
    Unique(usize),
    Duplicates(String),
}

/// The names among `names` that are samples for the pattern, in order.
pub open spec fn hit_names(names: Seq<String>, pattern: Seq<u8>) -> Seq<Seq<char>>
    decreases names.len(),
{
    if names.len() == 0 {
        Seq::empty()
    } else if is_sample_name(utf8(names.last()@), pattern) {
        hit_names(names.drop_last(), pattern).push(names.last()@)
    } else {
        hit_names(names.drop_last(), pattern)
    }
}

/// The names listed one per line, each as `  - <name>`.
pub open spec fn file_list(ns: Seq<Seq<char>>) -> Seq<char>
    decreases ns.len(),
{
    if ns.len() == 0 {
        Seq::empty()
    } else if ns.len() == 1 {
        "  - "@ + ns[0]
    } else {
        file_list(ns.drop_last()) + "\n"@ + "  - "@ + ns.last()
    }
}

/// The message for a sample that has no file.
pub open spec fn missing_message(label: Seq<char>, number: nat, dir: Seq<char>) -> Seq<char> {
    "No file found for "@ + label + " number "@ + crate::messages::decimal(number) + " in "@ + dir
}

/// The message for a sample number that several files share.
pub open spec fn duplicates_message(
    count: nat,
    number_text: Seq<char>,
    label: Seq<char>,
    list: Seq<char>,
    kind: Seq<char>,
    dir: Seq<char>,
) -> Seq<char> {
    "DUPLICATE TEST NUMBERS DETECTED!\nFound "@ + crate::messages::decimal(count) + " files with number "@ + number_text
        + " for "@ + label + ":\n"@ + list
        + "\n\nERROR: Test numbers must be unique within each "@ + kind
        + " directory.\nFIX: Rename the duplicate files to use unique numbers.\nDirectory: "@ + dir
}

/// Look for the sample file among the names of a directory: `Missing` when
/// no name matches the pattern, `Unique` with the position of the one name
/// that does, `Duplicates` when several do; the messages name the sample
/// (`label`, `number`, `number_text`), the kind of directory and the
/// directory itself.
pub fn find_sample(
    names: &Vec<String>,
    pattern: &str,
    label: &str,
    number: usize,
    number_text: &str,
    kind: &str,
    dir: &str,
) -> (r: SampleMatch)
    ensures
        hit_names(names@, utf8(pattern@)).len() == 0 ==> r == SampleMatch::Missing(r->Missing_0)
            && r->Missing_0@ == missing_message(label@, number as nat, dir@),
        hit_names(names@, utf8(pattern@)).len() == 1 ==> r is Unique && r->Unique_0 < names@.len()
            && is_sample_name(utf8(names@[r->Unique_0 as int]@), utf8(pattern@)) && forall|k: int|
            0 <= k < names@.len() && k != r->Unique_0 ==> !is_sample_name(
                utf8(#[trigger] names@[k]@),
                utf8(pattern@),
            ),
        hit_names(names@, utf8(pattern@)).len() > 1 ==> r is Duplicates && r->Duplicates_0@
            == duplicates_message(
            hit_names(names@, utf8(pattern@)).len(),
            number_text@,
            label@,
            file_list(hit_names(names@, utf8(pattern@))),
            kind@,
            dir@,
        ),
{
    let ghost pat = utf8(pattern@);
    let mut count: usize = 0;
    let mut first: usize = 0;
    let mut list = String::new();
    let mut k: usize = 0;
    proof {
        assert(names@.take(0) =~= Seq::<String>::empty());
    }
    while k < names.len()
        invariant
            k <= names@.len(),
            pat == utf8(pattern@),
            count == hit_names(names@.take(k as int), pat).len(),
            count <= k,
            list@ == file_list(hit_names(names@.take(k as int), pat)),
            count >= 1 ==> first < k && is_sample_name(utf8(names@[first as int]@), pat),
            count >= 1 ==> forall|m: int| 0 <= m < first ==> !is_sample_name(utf8(#[trigger] names@[m]@), pat),
            count == 1 ==> forall|m: int|
                0 <= m < k && m != first ==> !is_sample_name(utf8(#[trigger] names@[m]@), pat),
            count == 0 ==> forall|m: int| 0 <= m < k ==> !is_sample_name(utf8(#[trigger] names@[m]@), pat),
        decreases names@.len() - k,
    {
        proof {
            assert(names@.take(k + 1).drop_last() =~= names@.take(k as int));
            assert(names@.take(k + 1).last() == names@[k as int]);
        }
        let ghost h0 = hit_names(names@.take(k as int), pat);
        let ghost x = names@[k as int]@;
        proof {
            assert(h0.push(x).drop_last() =~= h0);
            assert(h0.push(x).last() == x);
        }
        let hit = is_sample_file(names[k].as_str(), pattern);
        proof {
            assert(names[k as int]@ == x);
            assert(hit == is_sample_name(utf8(x), pat));
        }
        if hit {
            proof {
                let t1 = names@.take(k + 1);
                assert(t1.drop_last() =~= names@.take(k as int));
                assert(t1.last()@ == x);
                assert(is_sample_name(utf8(x), pat));
                assert(hit_names(t1, pat) == h0.push(x));
                if h0.len() == 0 {
                    assert(h0.push(x)[0] == x);
                }
            }
            if count == 0 {
                first = k;
                list = cat2("  - ", names[k].as_str());
            } else {
                list = cat4(list.as_str(), "\n", "  - ", names[k].as_str());
            }
            count = count + 1;
        } else {
            proof {
                let t1 = names@.take(k + 1);
                assert(t1.drop_last() =~= names@.take(k as int));
                assert(t1.last()@ == x);
                assert(!is_sample_name(utf8(x), pat));
                assert(hit_names(t1, pat) == h0);
            }
        }
        k = k + 1;
    }
    proof {
        assert(names@.take(k as int) =~= names@);
    }
    if count == 0 {
        let n = decimal_string(number);
        SampleMatch::Missing(cat6("No file found for ", label, " number ", n.as_str(), " in ", dir))
    } else if count == 1 {
        SampleMatch::Unique(first)
    } else {
        let c = decimal_string(count);
        let head = cat6("DUPLICATE TEST NUMBERS DETECTED!\nFound ", c.as_str(), " files with number ", number_text, " for ", label);
        let mid = cat3(head.as_str(), ":\n", list.as_str());
        let tail = cat4(
            mid.as_str(),
            "\n\nERROR: Test numbers must be unique within each ",
            kind,
            " directory.\nFIX: Rename the duplicate files to use unique numbers.\nDirectory: ",
        );
        SampleMatch::Duplicates(cat2(tail.as_str(), dir))
    }
}

} // verus!
