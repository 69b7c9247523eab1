//! Comparisons of text used by the analysis.
use vstd::prelude::*;
use vstd::utf8::*;

verus! {

/// Whether two strings hold the same characters.
pub fn str_eq(a: &str, b: &str) -> (r: bool)
    ensures
        r == (a@ == b@),
{
    let x = a.as_bytes();
    let y = b.as_bytes();
    if x.len() != y.len() {
        return false;
    }
    let mut i: usize = 0;
    while i < x.len()
        invariant
            x@ == encode_utf8(a@),
            y@ == encode_utf8(b@),
            x@.len() == y@.len(),
            i <= x@.len(),
            forall|j: int| 0 <= j < i ==> x@[j] == y@[j],
        decreases x@.len() - i,
    {
        if x[i] != y[i] {
            return false;
        }
        i = i + 1;
    }
    proof {
        assert(x@ =~= y@);
        encode_utf8_decode_utf8(a@);
        encode_utf8_decode_utf8(b@);
    }
    true
}

/// The characters of a string, in order.
pub fn chars_of(s: &str) -> (v: Vec<char>)
    ensures
        v@ == s@,
{
    let mut v: Vec<char> = Vec::new();
    for c in it: s.chars()
        invariant
            v@ == it.seq().take(it.index() as int),
            it.seq() == s@,
    {
        v.push(c);
    }
    v
}

/// Characters that can stand inside a word: ASCII letters and digits, the
/// underscore, and every character beyond ASCII.
pub open spec fn is_word_char(c: char) -> bool {
    let n = c as u32;
    ||| 0x61 <= n <= 0x7a
    ||| 0x41 <= n <= 0x5a
    ||| 0x30 <= n <= 0x39
    ||| n == 0x5f
    ||| n > 0x7f
}

/// `word` occurs in `hay` at position `i` as a whole word: no word character
/// stands right before or right after it.
pub open spec fn word_at(hay: Seq<char>, word: Seq<char>, i: int) -> bool {
    &&& 0 <= i
    &&& i + word.len() <= hay.len()
    &&& hay.subrange(i, i + word.len()) == word
    &&& (i == 0 || !is_word_char(hay[i - 1]))
    &&& (i + word.len() == hay.len() || !is_word_char(hay[i + word.len()]))
}

/// Whether `word` occurs in `hay` as a whole word.
pub open spec fn has_word(hay: Seq<char>, word: Seq<char>) -> bool {
    exists|i: int| #[trigger] word_at(hay, word, i)
}

fn word_char(c: char) -> (r: bool)
    ensures
        r == is_word_char(c),
{
    let n = c as u32;
    (0x61 <= n && n <= 0x7a) || (0x41 <= n && n <= 0x5a) || (0x30 <= n && n <= 0x39) || n == 0x5f
        || n > 0x7f
}

/// Whether `word` occurs in `hay` as a whole word.
pub fn contains_word(hay: &str, word: &str) -> (r: bool)
    ensures
        r == has_word(hay@, word@),
{
    let h = chars_of(hay);
    let n = chars_of(word);
    if n.len() > h.len() {
        assert forall|k: int| !#[trigger] word_at(hay@, word@, k) by {}
        return false;
    }
    let last = h.len() - n.len();
    let mut i: usize = 0;
    while i <= last
        invariant
            last == h@.len() - n@.len(),
            h@.len() <= usize::MAX,
            h@ == hay@,
            n@ == word@,
            n@.len() <= h@.len(),
            i <= h@.len() - n@.len() + 1,
            forall|k: int| 0 <= k < i ==> !#[trigger] word_at(h@, n@, k),
        decreases h@.len() + 1 - i,
    {
        let mut j: usize = 0;
        let mut same = true;
        while j < n.len()
            invariant
                h@ == hay@,
                n@ == word@,
                i + n@.len() <= h@.len(),
                h@.len() <= usize::MAX,
                j <= n@.len(),
                same <==> forall|l: int| 0 <= l < j ==> h@[i + l] == n@[l],
            decreases n@.len() - j,
        {
            if h[i + j] != n[j] {
                same = false;
            }
            j = j + 1;
        }
        let open_before = i == 0 || !word_char(h[i - 1]);
        let open_after = i + n.len() == h.len() || !word_char(h[i + n.len()]);
        if same && open_before && open_after {
            assert(h@.subrange(i as int, i + n@.len()) =~= n@);
            assert(word_at(h@, n@, i as int));
            return true;
        }
        proof {
            if !same {
                let l = choose|l: int| 0 <= l < n@.len() && h@[i + l] != n@[l];
                assert(h@.subrange(i as int, i + n@.len())[l] != n@[l]);
            }
        }
        assert(!word_at(h@, n@, i as int));
        if i == last {
            assert forall|k: int| !#[trigger] word_at(hay@, word@, k) by {
                if 0 <= k && k + word@.len() <= hay@.len() {
                    assert(k <= i);
                }
            }
            return false;
        }
        i = i + 1;
    }
    assert forall|k: int| !#[trigger] word_at(hay@, word@, k) by {
        if 0 <= k && k + word@.len() <= hay@.len() {
            assert(k < i);
        }
    }
    false
}

/// Three-way comparison of `a[i..]` with `b[i..]`, character by character
/// (by code point), a proper prefix first: -1, 0 or 1.
pub open spec fn text_order_from(a: Seq<char>, b: Seq<char>, i: int) -> int
    decreases a.len() - i,
{
    if i >= a.len() {
        if i >= b.len() { 0 } else { -1 }
    } else if i >= b.len() {
        1
    } else if a[i] < b[i] {
        -1
    } else if a[i] > b[i] {
        1
    } else {
        text_order_from(a, b, i + 1)
    }
}

/// Three-way lexicographic comparison of two texts by code point: -1 where
/// `a` comes first, 0 where they are equal, 1 where `b` comes first.
pub open spec fn text_order(a: Seq<char>, b: Seq<char>) -> int {
    text_order_from(a, b, 0)
}

proof fn lemma_text_order_from_antisymmetric(a: Seq<char>, b: Seq<char>, i: int)
    requires
        0 <= i,
    ensures
        text_order_from(a, b, i) == -text_order_from(b, a, i),
        -1 <= text_order_from(a, b, i) <= 1,
    decreases a.len() - i,
{
    if i < a.len() && i < b.len() && a[i] == b[i] {
        lemma_text_order_from_antisymmetric(a, b, i + 1);
    }
}

proof fn lemma_text_order_from_zero(a: Seq<char>, b: Seq<char>, i: int)
    requires
        0 <= i <= a.len(),
        i <= b.len(),
    ensures
        text_order_from(a, b, i) == 0 <==> (a.len() == b.len() && forall|j: int| i <= j < a.len() ==> a[j] == b[j]),
    decreases a.len() - i,
{
    if i < a.len() && i < b.len() {
        lemma_text_order_from_zero(a, b, i + 1);
    }
}

proof fn lemma_text_order_from_transitive(a: Seq<char>, b: Seq<char>, c: Seq<char>, i: int)
    requires
        0 <= i,
        text_order_from(a, b, i) < 0,
        text_order_from(b, c, i) < 0,
    ensures
        text_order_from(a, c, i) < 0,
    decreases a.len() - i,
{
    if i < a.len() && i < b.len() && i < c.len() && a[i] == b[i] && b[i] == c[i] {
        lemma_text_order_from_transitive(a, b, c, i + 1);
    }
}

/// `text_order` is a total order: swapping the texts negates it, it is 0
/// exactly on equal texts, and it is transitive.
pub proof fn lemma_text_order_laws(a: Seq<char>, b: Seq<char>, c: Seq<char>)
    ensures
        text_order(a, b) == -text_order(b, a),
        -1 <= text_order(a, b) <= 1,
        text_order(a, b) == 0 <==> a == b,
        text_order(a, b) < 0 && text_order(b, c) < 0 ==> text_order(a, c) < 0,
        text_order(a, b) <= 0 && text_order(b, c) <= 0 ==> text_order(a, c) <= 0,
{
    lemma_text_order_from_antisymmetric(a, b, 0);
    lemma_text_order_from_zero(a, b, 0);
    lemma_text_order_from_zero(b, c, 0);
    if text_order(a, b) == 0 {
        assert(a =~= b);
    }
    if text_order(b, c) == 0 {
        assert(b =~= c);
    }
    if text_order(a, b) < 0 && text_order(b, c) < 0 {
        lemma_text_order_from_transitive(a, b, c, 0);
    }
}

/// Compares two texts lexicographically by code point: -1 where `a` comes
/// first, 0 where they are equal, 1 where `b` comes first.
pub fn compare_text(a: &str, b: &str) -> (r: i8)
    ensures
        r == text_order(a@, b@),
{
    let x = chars_of(a);
    let y = chars_of(b);
    let mut i: usize = 0;
    while i < x.len() && i < y.len()
        invariant
            x@ == a@,
            y@ == b@,
            i <= x@.len(),
            i <= y@.len(),
            text_order(a@, b@) == text_order_from(a@, b@, i as int),
        decreases x@.len() - i,
    {
        if x[i] < y[i] {
            return -1;
        }
        if x[i] > y[i] {
            return 1;
        }
        i = i + 1;
    }
    if i < y.len() {
        -1
    } else if i < x.len() {
        1
    } else {
        0
    }
}

} // verus!
