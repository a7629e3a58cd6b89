//! Comparison of names by their bytes, the order in which strings sort, and
//! the joining of path components.

use vstd::prelude::*;
use vstd::string::*;
use vstd::utf8::*;

verus! {

/// Lexicographic order on byte strings: a proper prefix comes first,
/// otherwise the first byte that differs decides.
pub open spec fn bytes_less(a: Seq<u8>, b: Seq<u8>) -> bool
    decreases a.len(),
{
    if b.len() == 0 {
        false
    } else if a.len() == 0 {
        true
    } else if a[0] != b[0] {
        a[0] < b[0]
    } else {
        bytes_less(a.drop_first(), b.drop_first())
    }
}

/// The order of two names: that of their UTF-8 encodings.
pub open spec fn name_less(a: Seq<char>, b: Seq<char>) -> bool {
    bytes_less(encode_utf8(a), encode_utf8(b))
}

/// No byte string comes before itself.
pub proof fn lemma_bytes_less_irreflexive(a: Seq<u8>)
    ensures
        !bytes_less(a, a),
    decreases a.len(),
{
    if a.len() > 0 {
        lemma_bytes_less_irreflexive(a.drop_first());
    }
}

/// What comes before a byte string comes before what that comes before.
pub proof fn lemma_bytes_less_transitive(a: Seq<u8>, b: Seq<u8>, c: Seq<u8>)
    requires
        bytes_less(a, b),
        bytes_less(b, c),
    ensures
        bytes_less(a, c),
    decreases a.len(),
{
    if a.len() > 0 && a[0] == b[0] && b[0] == c[0] {
        lemma_bytes_less_transitive(a.drop_first(), b.drop_first(), c.drop_first());
    }
}

/// Of two different byte strings one comes before the other.
pub proof fn lemma_bytes_less_total(a: Seq<u8>, b: Seq<u8>)
    ensures
        a == b || bytes_less(a, b) || bytes_less(b, a),
    decreases a.len(),
{
    if a.len() > 0 && b.len() > 0 && a[0] == b[0] {
        lemma_bytes_less_total(a.drop_first(), b.drop_first());
        if a.drop_first() == b.drop_first() {
            assert(a =~= seq![a[0]] + a.drop_first());
            assert(b =~= seq![b[0]] + b.drop_first());
        }
    } else if a.len() == 0 && b.len() == 0 {
        assert(a =~= b);
    }
}

/// Names are ordered strictly: no name comes before itself, the order is
/// transitive, and of two different names one comes first.
pub proof fn lemma_name_order(a: Seq<char>, b: Seq<char>, c: Seq<char>)
    ensures
        !name_less(a, a),
        name_less(a, b) && name_less(b, c) ==> name_less(a, c),
        a == b || name_less(a, b) || name_less(b, a),
        name_less(a, b) ==> !name_less(b, a) && a != b,
{
    let x = encode_utf8(a);
    let y = encode_utf8(b);
    let z = encode_utf8(c);
    lemma_bytes_less_irreflexive(x);
    if bytes_less(x, y) && bytes_less(y, z) {
        lemma_bytes_less_transitive(x, y, z);
    }
    lemma_bytes_less_total(x, y);
    if x == y {
        encode_utf8_decode_utf8(a);
        encode_utf8_decode_utf8(b);
    }
    if bytes_less(x, y) && bytes_less(y, x) {
        lemma_bytes_less_transitive(x, y, x);
    }
}

/// Whether `a` sorts before `b`.
pub fn str_less(a: &str, b: &str) -> (r: bool)
    ensures
        r == name_less(a@, b@),
{
    let x = a.as_bytes();
    let y = b.as_bytes();
    let mut i: usize = 0;
    proof {
        assert(x@.skip(0) =~= x@);
        assert(y@.skip(0) =~= y@);
    }
    while i < x.len() && i < y.len()
        invariant
            i <= x@.len(),
            i <= y@.len(),
            x@ == encode_utf8(a@),
            y@ == encode_utf8(b@),
            bytes_less(x@, y@) == bytes_less(x@.skip(i as int), y@.skip(i as int)),
        decreases x@.len() - i,
    {
        proof {
            assert(x@.skip(i as int).drop_first() =~= x@.skip(i + 1));
            assert(y@.skip(i as int).drop_first() =~= y@.skip(i + 1));
        }
        if x[i] != y[i] {
            return x[i] < y[i];
        }
        i = i + 1;
    }
    i < y.len()
}

/// Whether `a` and `b` are the same string.
pub fn str_equal(a: &str, b: &str) -> (r: bool)
    ensures
        r == (a@ == b@),
{
    let x = a.as_bytes();
    let y = b.as_bytes();
    proof {
        encode_utf8_decode_utf8(a@);
        encode_utf8_decode_utf8(b@);
    }
    if x.len() != y.len() {
        return false;
    }
    let mut i: usize = 0;
    while i < x.len()
        invariant
            i <= x@.len(),
            x@.len() == y@.len(),
            x@ == encode_utf8(a@),
            y@ == encode_utf8(b@),
            forall|k: int| 0 <= k < i ==> x@[k] == y@[k],
        decreases x@.len() - i,
    {
        if x[i] != y[i] {
            return false;
        }
        i = i + 1;
    }
    assert(x@ =~= y@);
    true
}

/// The path `base` extended by the component `part`: the two are separated
/// by one `/`, unless `base` is empty or already ends with one.
pub open spec fn joined_path(base: Seq<char>, part: Seq<char>) -> Seq<char> {
    if base.len() == 0 || base.last() == '/' {
        base + part
    } else {
        base + seq!['/'] + part
    }
}

/// Extends the path `base` by the component `part`.
pub fn join_path(base: &str, part: &str) -> (r: String)
    ensures
        r@ == joined_path(base@, part@),
{
    let n = base.unicode_len();
    let mut r = String::from_str(base);
    if n > 0 && base.get_char(n - 1) != '/' {
        proof {
            reveal_strlit("/");
        }
        r.append("/");
        assert(r@ =~= base@ + seq!['/']);
    }
    r.append(part);
    r
}

/// The names that a list of strings holds.
pub open spec fn names_view(names: Seq<String>) -> Seq<Seq<char>> {
    Seq::new(names.len(), |i: int| names[i]@)
}

/// The names in a row, with `sep` between each two of them.
pub open spec fn joined_names(names: Seq<Seq<char>>, sep: Seq<char>) -> Seq<char>
    decreases names.len(),
{
    if names.len() == 0 {
        Seq::empty()
    } else if names.len() == 1 {
        names[0]
    } else {
        joined_names(names.drop_last(), sep) + sep + names.last()
    }
}

/// `itertools::join` writes the items one after the other, with `sep`
/// between each two of them; of no items it makes the empty string. A string
/// is written as it stands.
#[verifier::external_body]
pub(crate) fn join_names(names: &Vec<String>, sep: &str) -> (r: String)
    ensures
        r@ == joined_names(names_view(names@), sep@),
{
    itertools::join(names, sep)
}

/// The string without the white space at its beginning and at its end.
pub uninterp spec fn trimmed(s: Seq<char>) -> Seq<char>;

/// `str::trim` gives the part of the string between its leading and its
/// trailing white space, which depends on nothing but the string.
#[verifier::external_body]
pub(crate) fn trim(s: &str) -> (r: &str)
    ensures
        r@ == trimmed(s@),
{
    s.trim()
}

/// The extended grapheme clusters of a string, in their order.
pub uninterp spec fn grapheme_clusters(s: Seq<char>) -> Seq<Seq<char>>;

/// The strings of `parts` one after the other.
pub open spec fn concatenation(parts: Seq<Seq<char>>) -> Seq<char>
    decreases parts.len(),
{
    if parts.len() == 0 {
        Seq::empty()
    } else {
        parts[0] + concatenation(parts.drop_first())
    }
}

/// `UnicodeSegmentation::graphemes`, asked for extended clusters, goes
/// through the grapheme clusters of the string, which depend on nothing but
/// the string; each cluster is copied into a string of its own. The first
/// cluster begins where the string begins, each other one where the one
/// before it ends, and the last one ends where the string ends: one after
/// the other they are the string.
#[verifier::external_body]
pub(crate) fn graphemes(s: &str) -> (r: Vec<String>)
    ensures
        names_view(r@) == grapheme_clusters(s@),
        concatenation(names_view(r@)) == s@,
{
    unicode_segmentation::UnicodeSegmentation::graphemes(s, true).map(String::from).collect()
}

/// The number of bytes that a string takes.
pub open spec fn byte_len(s: Seq<char>) -> nat {
    encode_utf8(s).len()
}

/// The clusters of `clusters` added to `start` one after the other, up to
/// the first that would bring the string over `limit` bytes.
pub open spec fn extended_within(start: Seq<char>, clusters: Seq<Seq<char>>, limit: nat) -> Seq<
    char,
>
    decreases clusters.len(),
{
    if clusters.len() == 0 {
        start
    } else if byte_len(start) + byte_len(clusters[0]) > limit {
        start
    } else {
        extended_within(start + clusters[0], clusters.drop_first(), limit)
    }
}

/// The longest beginning of a string that is made of whole grapheme
/// clusters and takes no more than `limit` bytes.
pub open spec fn truncated(s: Seq<char>, limit: nat) -> Seq<char> {
    extended_within(Seq::empty(), grapheme_clusters(s), limit)
}

/// A string takes the bytes of its parts.
pub proof fn lemma_byte_len_of_parts(a: Seq<char>, b: Seq<char>)
    ensures
        encode_utf8(a + b) == encode_utf8(a) + encode_utf8(b),
        byte_len(a + b) == byte_len(a) + byte_len(b),
    decreases a.len(),
{
    if a.len() == 0 {
        assert(a + b =~= b);
        assert(encode_utf8(a) + encode_utf8(b) =~= encode_utf8(b));
    } else {
        lemma_byte_len_of_parts(a.drop_first(), b);
        assert((a + b).drop_first() =~= a.drop_first() + b);
        assert(encode_utf8(a + b) =~= encode_utf8(a) + encode_utf8(b));
    }
}

/// A string that is extended within a limit stays within the limit, if it
/// was within it.
pub proof fn lemma_extended_within(start: Seq<char>, clusters: Seq<Seq<char>>, limit: nat)
    requires
        byte_len(start) <= limit,
    ensures
        byte_len(extended_within(start, clusters, limit)) <= limit,
    decreases clusters.len(),
{
    if clusters.len() > 0 && byte_len(start) + byte_len(clusters[0]) <= limit {
        lemma_byte_len_of_parts(start, clusters[0]);
        lemma_extended_within(start + clusters[0], clusters.drop_first(), limit);
    }
}

/// Clusters that fit within the limit together are all added.
pub proof fn lemma_extended_whole(start: Seq<char>, clusters: Seq<Seq<char>>, limit: nat)
    requires
        byte_len(start) + byte_len(concatenation(clusters)) <= limit,
    ensures
        extended_within(start, clusters, limit) == start + concatenation(clusters),
    decreases clusters.len(),
{
    if clusters.len() == 0 {
        assert(start + concatenation(clusters) =~= start);
    } else {
        let rest = clusters.drop_first();
        lemma_byte_len_of_parts(clusters[0], concatenation(rest));
        lemma_byte_len_of_parts(start, clusters[0]);
        lemma_extended_whole(start + clusters[0], rest, limit);
        assert((start + clusters[0]) + concatenation(rest) =~= start + concatenation(clusters));
    }
}

/// A string that is cut down to a limit takes no more bytes than the limit.
pub proof fn lemma_truncated(s: Seq<char>, limit: nat)
    ensures
        byte_len(truncated(s, limit)) <= limit,
{
    lemma_extended_within(Seq::empty(), grapheme_clusters(s), limit);
}

/// Cuts a string down to at most `len` bytes, between grapheme clusters.
pub fn truncate_str(s: &str, len: usize) -> (r: String)
    ensures
        r@ == truncated(s@, len as nat),
        byte_len(r@) <= len,
        byte_len(s@) <= len ==> r@ == s@,
{
    proof {
        lemma_truncated(s@, len as nat);
    }
    let clusters = graphemes(s);
    let ghost all = grapheme_clusters(s@);
    proof {
        if byte_len(s@) <= len {
            lemma_extended_whole(Seq::empty(), all, len as nat);
            assert(Seq::<char>::empty() + concatenation(all) =~= s@);
        }
    }
    let mut r = String::new();
    let mut i: usize = 0;
    assert(all.skip(0) =~= all);
    while i < clusters.len()
        invariant
            i <= clusters@.len(),
            names_view(clusters@) == all,
            byte_len(truncated(s@, len as nat)) <= len,
            byte_len(s@) <= len ==> truncated(s@, len as nat) == s@,
            truncated(s@, len as nat) == extended_within(r@, all.skip(i as int), len as nat),
        decreases clusters@.len() - i,
    {
        let cluster = clusters[i].as_str();
        proof {
            assert(all.skip(i as int)[0] == cluster@);
            assert(all.skip(i as int).drop_first() =~= all.skip(i + 1));
        }
        let used = r.as_str().as_bytes().len();
        let more = cluster.as_bytes().len();
        if used > len || more > len - used {
            return r;
        }
        r.append(cluster);
        i = i + 1;
    }
    r
}

/// The decimal digit for a number below ten.
pub open spec fn digit(d: int) -> char {
    if d == 0 {
        '0'
    } else if d == 1 {
        '1'
    } else if d == 2 {
        '2'
    } else if d == 3 {
        '3'
    } else if d == 4 {
        '4'
    } else if d == 5 {
        '5'
    } else if d == 6 {
        '6'
    } else if d == 7 {
        '7'
    } else if d == 8 {
        '8'
    } else {
        '9'
    }
}

/// A number in decimal digits.
pub open spec fn decimal(n: nat) -> Seq<char>
    decreases n,
{
    if n < 10 {
        seq![digit(n as int)]
    } else {
        decimal(n / 10).push(digit((n % 10) as int))
    }
}

/// Ten to the power of `k`.
pub open spec fn power_of_ten(k: nat) -> nat
    decreases k,
{
    if k == 0 {
        1
    } else {
        10 * power_of_ten((k - 1) as nat)
    }
}

/// A number below ten to the power of `k` has at most `k` digits, each of
/// which takes one byte.
pub proof fn lemma_decimal_len(n: nat, k: nat)
    requires
        k >= 1,
        n < power_of_ten(k),
    ensures
        decimal(n).len() <= k,
        byte_len(decimal(n)) == decimal(n).len(),
    decreases k,
{
    let digits = decimal(n);
    if n >= 10 {
        assert(k >= 2) by {
            if k == 1 {
                assert(power_of_ten(1) == 10) by {
                    reveal_with_fuel(power_of_ten, 2);
                }
            }
        }
        lemma_decimal_len(n / 10, (k - 1) as nat);
        let head = decimal(n / 10);
        let last = seq![digit((n % 10) as int)];
        assert(digits =~= head + last);
        lemma_byte_len_of_parts(head, last);
        is_ascii_chars_encode_utf8(last);
    } else {
        is_ascii_chars_encode_utf8(digits);
    }
}

/// A number of 32 bits has at most ten digits.
pub proof fn lemma_decimal_of_u32(n: u32)
    ensures
        decimal(n as nat).len() <= 10,
        byte_len(decimal(n as nat)) == decimal(n as nat).len(),
{
    assert(power_of_ten(10) == 10_000_000_000) by {
        reveal_with_fuel(power_of_ten, 11);
    }
    lemma_decimal_len(n as nat, 10);
}

/// The decimal digit for a number below ten.
fn digit_str(d: u32) -> (r: &'static str)
    requires
        d < 10,
    ensures
        r@ == seq![digit(d as int)],
{
    proof {
        reveal_strlit("0");
        reveal_strlit("1");
        reveal_strlit("2");
        reveal_strlit("3");
        reveal_strlit("4");
        reveal_strlit("5");
        reveal_strlit("6");
        reveal_strlit("7");
        reveal_strlit("8");
        reveal_strlit("9");
    }
    let r = if d == 0 {
        "0"
    } else if d == 1 {
        "1"
    } else if d == 2 {
        "2"
    } else if d == 3 {
        "3"
    } else if d == 4 {
        "4"
    } else if d == 5 {
        "5"
    } else if d == 6 {
        "6"
    } else if d == 7 {
        "7"
    } else if d == 8 {
        "8"
    } else {
        "9"
    };
    assert(r@ =~= seq![digit(d as int)]);
    r
}

/// Writes a number in decimal digits.
pub fn decimal_string(n: u32) -> (r: String)
    ensures
        r@ == decimal(n as nat),
    decreases n,
{
    if n < 10 {
        String::from_str(digit_str(n))
    } else {
        let mut r = decimal_string(n / 10);
        r.append(digit_str(n % 10));
        assert(r@ =~= decimal(n as nat));
        r
    }
}

} // verus!
