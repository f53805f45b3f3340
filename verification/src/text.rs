//! Text primitives of the interpreter: white space and trimming, the order
//! in which names are listed, and padding to a column.

use vstd::prelude::*;
use vstd::std_specs::iter::IteratorSpec;
use vstd::string::*;
use vstd::utf8::*;

verus! {

/// Whether `c` has the Unicode property White_Space.
pub open spec fn white_space(c: char) -> bool {
    let n = c as u32;
    ||| 0x09 <= n <= 0x0D
    ||| n == 0x20
    ||| n == 0x85
    ||| n == 0xA0
    ||| n == 0x1680
    ||| 0x2000 <= n <= 0x200A
    ||| n == 0x2028
    ||| n == 0x2029
    ||| n == 0x202F
    ||| n == 0x205F
    ||| n == 0x3000
}

/// `s` without its leading white space.
pub open spec fn trim_start(s: Seq<char>) -> Seq<char>
    decreases s.len(),
{
    if s.len() > 0 && white_space(s[0]) {
        trim_start(s.drop_first())
    } else {
        s
    }
}

/// `s` without its trailing white space.
pub open spec fn trim_end(s: Seq<char>) -> Seq<char>
    decreases s.len(),
{
    if s.len() > 0 && white_space(s.last()) {
        trim_end(s.drop_last())
    } else {
        s
    }
}

/// `s` without its leading and trailing white space.
pub open spec fn trimmed(s: Seq<char>) -> Seq<char> {
    trim_end(trim_start(s))
}

/// Tells whether `c` is white space.
pub fn is_white_space(c: char) -> (b: bool)
    ensures
        b == white_space(c),
{
    let n: u32 = c as u32;
    (0x09 <= n && n <= 0x0D) || n == 0x20 || n == 0x85 || n == 0xA0 || n == 0x1680 || (0x2000 <= n
        && n <= 0x200A) || n == 0x2028 || n == 0x2029 || n == 0x202F || n == 0x205F || n == 0x3000
}

/// Dropping `k` leading white-space characters that are followed by
/// something else, or by nothing, is `trim_start`.
pub proof fn lemma_trim_start(s: Seq<char>, k: int)
    requires
        0 <= k <= s.len(),
        forall|j: int| 0 <= j < k ==> white_space(#[trigger] s[j]),
        k < s.len() ==> !white_space(s[k]),
    ensures
        trim_start(s) == s.subrange(k, s.len() as int),
    decreases k,
{
    if k > 0 {
        let t = s.drop_first();
        lemma_trim_start(t, k - 1);
    }
}

/// Dropping everything from position `e` on, where only white space
/// stands and the character before is none, is `trim_end`.
pub proof fn lemma_trim_end(s: Seq<char>, e: int)
    requires
        0 <= e <= s.len(),
        forall|j: int| e <= j < s.len() ==> white_space(#[trigger] s[j]),
        0 < e ==> !white_space(s[e - 1]),
    ensures
        trim_end(s) == s.subrange(0, e),
    decreases s.len() - e,
{
    if e < s.len() {
        let t = s.drop_last();
        lemma_trim_end(t, e);
    }
}

/// Whether `s` holds white space only.
pub open spec fn all_white_space(s: Seq<char>) -> bool {
    forall|i: int| 0 <= i < s.len() ==> white_space(#[trigger] s[i])
}

/// White space in front of a text does not change what `trim_start` leaves
/// of it.
pub proof fn lemma_trim_start_ignores_lead(lead: Seq<char>, s: Seq<char>)
    requires
        all_white_space(lead),
    ensures
        trim_start(lead + s) == trim_start(s),
    decreases lead.len(),
{
    if lead.len() > 0 {
        let rest = lead.drop_first();
        assert((lead + s).drop_first() =~= rest + s);
        lemma_trim_start_ignores_lead(rest, s);
    }
}

/// White space behind a text does not change what `trim_end` leaves of it.
pub proof fn lemma_trim_end_ignores_trail(s: Seq<char>, trail: Seq<char>)
    requires
        all_white_space(trail),
    ensures
        trim_end(s + trail) == trim_end(s),
    decreases trail.len(),
{
    if trail.len() > 0 {
        let rest = trail.drop_last();
        assert((s + trail).drop_last() =~= s + rest);
        lemma_trim_end_ignores_trail(s, rest);
    }
}

/// White space behind a text does not change what `trimmed` leaves of it.
pub proof fn lemma_trimmed_ignores_trail(s: Seq<char>, trail: Seq<char>)
    requires
        all_white_space(trail),
    ensures
        trimmed(s + trail) == trimmed(s),
    decreases s.len(),
{
    if s.len() == 0 {
        lemma_trim_start_ignores_lead(trail, s);
    } else if white_space(s[0]) {
        assert((s + trail).drop_first() =~= s.drop_first() + trail);
        lemma_trimmed_ignores_trail(s.drop_first(), trail);
    } else {
        lemma_trim_end_ignores_trail(s, trail);
    }
}

/// White space around a text does not change what `trimmed` leaves of it.
pub proof fn lemma_trimmed_ignores_surroundings(lead: Seq<char>, s: Seq<char>, trail: Seq<char>)
    requires
        all_white_space(lead),
        all_white_space(trail),
    ensures
        trimmed(lead + s + trail) == trimmed(s),
{
    assert(lead + s + trail =~= lead + (s + trail));
    lemma_trim_start_ignores_lead(lead, s + trail);
    lemma_trimmed_ignores_trail(s, trail);
}

/// What `trim_start` leaves does not begin with white space.
pub proof fn lemma_trim_start_head(s: Seq<char>)
    ensures
        trim_start(s).len() > 0 ==> !white_space(trim_start(s)[0]),
    decreases s.len(),
{
    if s.len() > 0 && white_space(s[0]) {
        lemma_trim_start_head(s.drop_first());
    }
}

/// What `trim_end` leaves is the beginning of the text, does not end with
/// white space, and is not empty where the text begins with something
/// else than white space.
pub proof fn lemma_trim_end_prefix(s: Seq<char>)
    ensures
        trim_end(s).len() <= s.len(),
        trim_end(s) == s.take(trim_end(s).len() as int),
        trim_end(s).len() > 0 ==> !white_space(trim_end(s).last()),
        s.len() > 0 && !white_space(s[0]) ==> trim_end(s).len() > 0,
    decreases s.len(),
{
    if s.len() > 0 && white_space(s.last()) {
        lemma_trim_end_prefix(s.drop_last());
    }
}

/// Trimming a trimmed text changes nothing.
pub proof fn lemma_trimmed_idempotent(s: Seq<char>)
    ensures
        trimmed(trimmed(s)) == trimmed(s),
{
    lemma_trim_start_head(s);
    lemma_trim_end_prefix(trim_start(s));
}

/// Removes leading and trailing white space.
pub fn trim(s: &str) -> (r: &str)
    ensures
        r@ == trimmed(s@),
{
    let mut rest = s.chars();
    let mut seen: usize = 0;
    let mut start: usize = 0;
    let mut end: usize = 0;
    let total: usize = s.unicode_len();
    loop
        invariant
            seen <= total == s@.len(),
            rest.remaining() == s@.subrange(seen as int, total as int),
            start <= end <= seen,
            forall|j: int| 0 <= j < start ==> white_space(#[trigger] s@[j]),
            forall|j: int| end <= j < seen ==> white_space(#[trigger] s@[j]),
            start < end ==> !white_space(s@[start as int]) && !white_space(s@[end - 1]),
            start == end ==> start == seen,
        ensures
            seen == total,
        decreases total - seen,
    {
        match rest.next() {
            Some(c) => {
                if is_white_space(c) {
                    if start == end {
                        start = seen + 1;
                        end = seen + 1;
                    }
                } else {
                    end = seen + 1;
                }
                seen = seen + 1;
            },
            None => {
                break ;
            },
        }
    }
    proof {
        lemma_trim_start(s@, start as int);
        let t = s@.subrange(start as int, total as int);
        lemma_trim_end(t, end - start);
    }
    s.substring_char(start, end)
}

/// Whether the bytes `a` come strictly before the bytes `b` in
/// lexicographic order.
pub open spec fn bytes_before(a: Seq<u8>, b: Seq<u8>) -> bool
    decreases a.len(),
{
    if b.len() == 0 {
        false
    } else if a.len() == 0 {
        true
    } else if a[0] != b[0] {
        a[0] < b[0]
    } else {
        bytes_before(a.drop_first(), b.drop_first())
    }
}

/// Whether the text `a` comes strictly before the text `b`: the order of
/// their UTF-8 encodings, byte by byte, which is the order of `str`.
pub open spec fn before(a: Seq<char>, b: Seq<char>) -> bool {
    bytes_before(encode_utf8(a), encode_utf8(b))
}

/// Where one text stands relative to another.
#[derive(Clone, Copy, Debug, PartialEq, Eq)]
pub enum Place {
    /// Strictly before the other.
    Before,
    /// Equal to the other.
    Same,
    /// Strictly after the other.
    After,
}

/// Two byte sequences that agree on their first `k` bytes are ordered as
/// what follows those bytes.
pub proof fn lemma_bytes_before_skip(a: Seq<u8>, b: Seq<u8>, k: int)
    requires
        0 <= k <= a.len(),
        k <= b.len(),
        forall|j: int| 0 <= j < k ==> a[j] == b[j],
    ensures
        bytes_before(a, b) == bytes_before(a.skip(k), b.skip(k)),
    decreases k,
{
    if k == 0 {
        assert(a.skip(0) =~= a);
        assert(b.skip(0) =~= b);
    } else {
        let a1 = a.drop_first();
        let b1 = b.drop_first();
        lemma_bytes_before_skip(a1, b1, k - 1);
        assert(a1.skip(k - 1) =~= a.skip(k));
        assert(b1.skip(k - 1) =~= b.skip(k));
    }
}

/// No byte sequence comes before itself.
pub proof fn lemma_bytes_before_irreflexive(a: Seq<u8>)
    ensures
        !bytes_before(a, a),
    decreases a.len(),
{
    if a.len() > 0 {
        lemma_bytes_before_irreflexive(a.drop_first());
    }
}

/// The order of byte sequences is transitive.
pub proof fn lemma_bytes_before_transitive(a: Seq<u8>, b: Seq<u8>, c: Seq<u8>)
    requires
        bytes_before(a, b),
        bytes_before(b, c),
    ensures
        bytes_before(a, c),
    decreases a.len(),
{
    if a.len() > 0 && a[0] == b[0] && b[0] == c[0] {
        lemma_bytes_before_transitive(a.drop_first(), b.drop_first(), c.drop_first());
    }
}

/// Of two different byte sequences one comes before the other.
pub proof fn lemma_bytes_before_total(a: Seq<u8>, b: Seq<u8>)
    requires
        !bytes_before(a, b),
        !bytes_before(b, a),
    ensures
        a == b,
    decreases a.len(),
{
    if a.len() > 0 && b.len() > 0 {
        lemma_bytes_before_total(a.drop_first(), b.drop_first());
        assert(a =~= seq![a[0]] + a.drop_first());
    }
}

/// Texts with the same UTF-8 encoding are the same text.
pub proof fn lemma_encoding_injective(a: Seq<char>, b: Seq<char>)
    requires
        encode_utf8(a) == encode_utf8(b),
    ensures
        a == b,
{
    encode_utf8_decode_utf8(a);
    encode_utf8_decode_utf8(b);
}

/// `before` is a strict total order on texts: no text comes before
/// itself, the order is transitive, and of two different texts one comes
/// before the other.
pub proof fn lemma_before_is_strict_total_order()
    ensures
        forall|a: Seq<char>| !#[trigger] before(a, a),
        forall|a: Seq<char>, b: Seq<char>, c: Seq<char>|
            #[trigger] before(a, b) && #[trigger] before(b, c) ==> before(a, c),
        forall|a: Seq<char>, b: Seq<char>|
            a != b ==> #[trigger] before(a, b) || #[trigger] before(b, a),
{
    assert forall|a: Seq<char>| !#[trigger] before(a, a) by {
        lemma_bytes_before_irreflexive(encode_utf8(a));
    }
    assert forall|a: Seq<char>, b: Seq<char>, c: Seq<char>|
        #[trigger] before(a, b) && #[trigger] before(b, c) implies before(a, c) by {
        lemma_bytes_before_transitive(encode_utf8(a), encode_utf8(b), encode_utf8(c));
    }
    assert forall|a: Seq<char>, b: Seq<char>| a != b implies #[trigger] before(a, b)
        || #[trigger] before(b, a) by {
        if !before(a, b) && !before(b, a) {
            lemma_bytes_before_total(encode_utf8(a), encode_utf8(b));
            lemma_encoding_injective(a, b);
        }
    }
}

/// Says where `a` stands relative to `b`.
pub fn place(a: &str, b: &str) -> (p: Place)
    ensures
        p is Before <==> before(a@, b@),
        p is Same <==> a@ == b@,
        p is After <==> before(b@, a@),
{
    let x = a.as_bytes();
    let y = b.as_bytes();
    let mut i: usize = 0;
    while i < x.len() && i < y.len()
        invariant
            i <= x@.len(),
            i <= y@.len(),
            x@ == encode_utf8(a@),
            y@ == encode_utf8(b@),
            forall|j: int| 0 <= j < i ==> x@[j] == y@[j],
        decreases x@.len() - i,
    {
        if x[i] != y[i] {
            proof {
                lemma_bytes_before_skip(x@, y@, i as int);
                lemma_bytes_before_skip(y@, x@, i as int);
            }
            if x[i] < y[i] {
                return Place::Before;
            } else {
                return Place::After;
            }
        }
        i = i + 1;
    }
    proof {
        lemma_bytes_before_skip(x@, y@, i as int);
        lemma_bytes_before_skip(y@, x@, i as int);
        if x@.len() == y@.len() {
            assert(x@ =~= y@);
            lemma_encoding_injective(a@, b@);
        }
    }
    if x.len() < y.len() {
        Place::Before
    } else if x.len() == y.len() {
        Place::Same
    } else {
        Place::After
    }
}

/// `n` spaces.
pub open spec fn spaces(n: nat) -> Seq<char> {
    Seq::new(n, |i: int| ' ')
}

/// `s` filled up with spaces on the right to `width` characters; `s`
/// itself where it is that long already.
pub open spec fn padded(s: Seq<char>, width: nat) -> Seq<char> {
    if s.len() >= width {
        s
    } else {
        s + spaces((width - s.len()) as nat)
    }
}

/// Fills `s` up with spaces on the right to `width` characters.
pub fn pad(s: &str, width: usize) -> (r: String)
    ensures
        r@ == padded(s@, width as nat),
{
    let mut r = String::from_str(s);
    let mut n: usize = s.unicode_len();
    while n < width
        invariant
            s@.len() <= n,
            n <= width || n == s@.len(),
            r@ == s@ + spaces((n - s@.len()) as nat),
        decreases width - n,
    {
        proof {
            reveal_strlit(" ");
        }
        r.append(" ");
        n = n + 1;
    }
    r
}

/// Fills `s` up with spaces on the right to one character more than
/// `reach`. A column that is one wider than the longest of its texts is
/// filled this way: its width itself need not fit in a `usize`.
pub fn pad_past(s: &str, reach: usize) -> (r: String)
    ensures
        r@ == padded(s@, (reach + 1) as nat),
{
    let n: usize = s.unicode_len();
    let mut r = pad(s, reach);
    if n <= reach {
        proof {
            reveal_strlit(" ");
        }
        r.append(" ");
    }
    r
}

/// The texts of a list of strings, in order.
pub open spec fn texts(lines: Seq<String>) -> Seq<Seq<char>> {
    lines.map_values(|line: String| line@)
}

} // verus!
