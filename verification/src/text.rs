//! Text rules shared by the store and the user interface.

use vstd::prelude::*;
use vstd::utf8::encode_utf8;

verus! {

/// Unicode `White_Space`, the set of characters that `char::is_whitespace` accepts.
pub open spec fn is_whitespace_char(c: char) -> bool {
    let u = c as u32;
    ||| 0x09 <= u <= 0x0d
    ||| u == 0x20
    ||| u == 0x85
    ||| u == 0xa0
    ||| u == 0x1680
    ||| 0x2000 <= u <= 0x200a
    ||| u == 0x2028
    ||| u == 0x2029
    ||| u == 0x202f
    ||| u == 0x205f
    ||| u == 0x3000
}

/// `s` without its leading whitespace.
pub open spec fn trim_start_spec(s: Seq<char>) -> Seq<char>
    decreases s.len(),
{
    if s.len() > 0 && is_whitespace_char(s[0]) {
        trim_start_spec(s.drop_first())
    } else {
        s
    }
}

/// `s` without its trailing whitespace.
pub open spec fn trim_end_spec(s: Seq<char>) -> Seq<char>
    decreases s.len(),
{
    if s.len() > 0 && is_whitespace_char(s.last()) {
        trim_end_spec(s.drop_last())
    } else {
        s
    }
}

/// `s` without its leading and trailing whitespace.
pub open spec fn trim_spec(s: Seq<char>) -> Seq<char> {
    trim_end_spec(trim_start_spec(s))
}

/// Trimming the start leaves nothing, or a text that starts with a non-space.
proof fn lemma_trim_start(s: Seq<char>)
    ensures
        trim_start_spec(s).len() == 0 || !is_whitespace_char(trim_start_spec(s)[0]),
    decreases s.len(),
{
    if s.len() > 0 && is_whitespace_char(s[0]) {
        lemma_trim_start(s.drop_first());
    }
}

/// Trimming the end keeps a prefix, and leaves nothing or a text that ends
/// with a non-space.
proof fn lemma_trim_end(s: Seq<char>)
    ensures
        trim_end_spec(s).len() <= s.len(),
        trim_end_spec(s) == s.take(trim_end_spec(s).len() as int),
        trim_end_spec(s).len() == 0 || !is_whitespace_char(trim_end_spec(s).last()),
    decreases s.len(),
{
    if s.len() > 0 && is_whitespace_char(s.last()) {
        lemma_trim_end(s.drop_last());
        assert(s.drop_last().take(trim_end_spec(s).len() as int) =~= s.take(
            trim_end_spec(s).len() as int,
        ));
    } else {
        assert(s.take(s.len() as int) =~= s);
    }
}

/// A trimmed text is empty or starts and ends with a non-space, and trimming
/// it again changes nothing.
pub proof fn law_trim(s: Seq<char>)
    ensures
        trim_spec(s).len() == 0 || (!is_whitespace_char(trim_spec(s)[0])
            && !is_whitespace_char(trim_spec(s).last())),
        trim_spec(trim_spec(s)) == trim_spec(s),
{
    let a = trim_start_spec(s);
    lemma_trim_start(s);
    lemma_trim_end(a);
    let t = trim_spec(s);
    if t.len() > 0 {
        assert(t[0] == a[0]);
    }
    assert(trim_start_spec(t) == t);
    lemma_trim_end(t);
    assert(trim_end_spec(t) == t);
}

/// `str::trim`: the slice without leading and trailing Unicode white space.
#[verifier::external_body]
fn str_trim(s: &str) -> (r: &str)
    ensures
        r@ == trim_spec(s@),
{
    s.trim()
}

/// A copy of `s` with leading and trailing white space removed.
pub fn trimmed(s: &str) -> (r: String)
    ensures
        r@ == trim_spec(s@),
{
    str_trim(s).to_owned()
}

/// True when `s` holds nothing but white space.
pub fn is_blank(s: &str) -> (r: bool)
    ensures
        r == (trim_spec(s@).len() == 0),
{
    str_trim(s).is_empty()
}

/// `None` for the empty text, the text itself otherwise.
pub open spec fn none_if_empty_spec(s: String) -> Option<String> {
    if s@.len() == 0 {
        None
    } else {
        Some(s)
    }
}

/// An optional field from a form: `None` when the text is empty.
pub fn none_if_empty(s: String) -> (r: Option<String>)
    ensures
        r == none_if_empty_spec(s),
{
    if s.as_str().is_empty() {
        None
    } else {
        Some(s)
    }
}

/// The text as it is stored and compared: its UTF-8 bytes.
pub open spec fn text_bytes(s: String) -> Seq<u8> {
    encode_utf8(s@)
}

/// Strict lexicographic order on byte strings (a proper prefix comes first).
pub open spec fn bytes_lt(a: Seq<u8>, b: Seq<u8>) -> bool
    decreases a.len(),
{
    if b.len() == 0 {
        false
    } else if a.len() == 0 {
        true
    } else if a[0] != b[0] {
        a[0] < b[0]
    } else {
        bytes_lt(a.drop_first(), b.drop_first())
    }
}

/// Strict order of two texts, as a binary collation compares them.
pub open spec fn text_lt(a: String, b: String) -> bool {
    bytes_lt(text_bytes(a), text_bytes(b))
}

/// Compares two texts byte by byte.
pub fn text_less(a: &String, b: &String) -> (r: bool)
    ensures
        r == text_lt(*a, *b),
{
    let x = a.as_str().as_bytes();
    let y = b.as_str().as_bytes();
    let mut i: usize = 0;
    proof {
        assert(x@.skip(0) =~= x@);
        assert(y@.skip(0) =~= y@);
    }
    while i < x.len() && i < y.len()
        invariant
            i <= x@.len(),
            i <= y@.len(),
            x@ == text_bytes(*a),
            y@ == text_bytes(*b),
            forall|k: int| 0 <= k < i ==> x@[k] == y@[k],
            bytes_lt(x@, y@) == bytes_lt(x@.skip(i as int), y@.skip(i as int)),
        decreases x@.len() - i,
    {
        if x[i] != y[i] {
            return x[i] < y[i];
        }
        proof {
            assert(x@.skip(i as int).drop_first() =~= x@.skip(i + 1));
            assert(y@.skip(i as int).drop_first() =~= y@.skip(i + 1));
        }
        i = i + 1;
    }
    i < y.len()
}

/// Byte strings are compared from their first byte: where two strings first
/// differ, the one with the smaller byte comes first, whatever follows.
pub proof fn law_bytes_lt_first_difference(p: Seq<u8>, x: u8, y: u8, s: Seq<u8>, t: Seq<u8>)
    requires
        x != y,
    ensures
        bytes_lt(p + seq![x] + s, p + seq![y] + t) <==> x < y,
    decreases p.len(),
{
    let a = p + seq![x] + s;
    let b = p + seq![y] + t;
    if p.len() == 0 {
        assert(a[0] == x);
        assert(b[0] == y);
    } else {
        law_bytes_lt_first_difference(p.drop_first(), x, y, s, t);
        assert(a.drop_first() =~= p.drop_first() + seq![x] + s);
        assert(b.drop_first() =~= p.drop_first() + seq![y] + t);
        assert(a[0] == p[0] && b[0] == p[0]);
    }
}

/// A proper prefix comes before the longer byte string, never after it.
pub proof fn law_bytes_lt_proper_prefix(p: Seq<u8>, x: u8, s: Seq<u8>)
    ensures
        bytes_lt(p, p + seq![x] + s),
        !bytes_lt(p + seq![x] + s, p),
    decreases p.len(),
{
    let b = p + seq![x] + s;
    if p.len() > 0 {
        law_bytes_lt_proper_prefix(p.drop_first(), x, s);
        assert(b.drop_first() =~= p.drop_first() + seq![x] + s);
        assert(b[0] == p[0]);
    }
}

/// No byte string comes before itself.
pub proof fn lemma_bytes_lt_irreflexive(a: Seq<u8>)
    ensures
        !bytes_lt(a, a),
    decreases a.len(),
{
    if a.len() > 0 {
        lemma_bytes_lt_irreflexive(a.drop_first());
    }
}

/// The byte order is transitive.
pub proof fn lemma_bytes_lt_transitive(a: Seq<u8>, b: Seq<u8>, c: Seq<u8>)
    requires
        bytes_lt(a, b),
        bytes_lt(b, c),
    ensures
        bytes_lt(a, c),
    decreases a.len(),
{
    if a.len() > 0 && b.len() > 0 && c.len() > 0 && a[0] == b[0] && b[0] == c[0] {
        lemma_bytes_lt_transitive(a.drop_first(), b.drop_first(), c.drop_first());
    }
}

/// Two different byte strings are ordered one way or the other.
pub proof fn lemma_bytes_lt_connected(a: Seq<u8>, b: Seq<u8>)
    ensures
        a == b || bytes_lt(a, b) || bytes_lt(b, a),
    decreases a.len(),
{
    if a.len() > 0 && b.len() > 0 && a[0] == b[0] {
        lemma_bytes_lt_connected(a.drop_first(), b.drop_first());
        if a.drop_first() == b.drop_first() {
            assert(a =~= seq![a[0]] + a.drop_first());
            assert(b =~= seq![b[0]] + b.drop_first());
        }
    } else if a.len() == 0 && b.len() == 0 {
        assert(a =~= b);
    }
}

/// The order on texts is a strict total order on their bytes.
pub proof fn lemma_text_order(a: String, b: String, c: String)
    ensures
        !text_lt(a, a),
        text_lt(a, b) && text_lt(b, c) ==> text_lt(a, c),
        text_bytes(a) == text_bytes(b) || text_lt(a, b) || text_lt(b, a),
        text_lt(a, b) ==> !text_lt(b, a),
{
    lemma_bytes_lt_irreflexive(text_bytes(a));
    if text_lt(a, b) && text_lt(b, c) {
        lemma_bytes_lt_transitive(text_bytes(a), text_bytes(b), text_bytes(c));
    }
    if text_lt(a, b) && text_lt(b, a) {
        lemma_bytes_lt_transitive(text_bytes(a), text_bytes(b), text_bytes(a));
    }
    lemma_bytes_lt_connected(text_bytes(a), text_bytes(b));
}

} // verus!
