//! White space and trimming of text.

use vstd::prelude::*;

verus! {

/// Whether `c` is white space: one of the code points that carry the Unicode
/// property `White_Space`.
pub open spec fn is_space(c: char) -> bool {
    let u = c as u32;
    ||| 0x09 <= u <= 0x0D
    ||| u == 0x20
    ||| u == 0x85
    ||| u == 0xA0
    ||| u == 0x1680
    ||| 0x2000 <= u <= 0x200A
    ||| u == 0x2028
    ||| u == 0x2029
    ||| u == 0x202F
    ||| u == 0x205F
    ||| u == 0x3000
}

/// The number of white-space characters with which `s` begins.
pub open spec fn leading_spaces(s: Seq<char>) -> nat
    decreases s.len(),
{
    if s.len() > 0 && is_space(s[0]) {
        1 + leading_spaces(s.drop_first())
    } else {
        0
    }
}

/// The number of white-space characters with which `s` ends.
pub open spec fn trailing_spaces(s: Seq<char>) -> nat
    decreases s.len(),
{
    if s.len() > 0 && is_space(s.last()) {
        1 + trailing_spaces(s.drop_last())
    } else {
        0
    }
}

/// `s` without the white space at its two ends.
pub open spec fn trimmed(s: Seq<char>) -> Seq<char> {
    if leading_spaces(s) == s.len() {
        Seq::empty()
    } else {
        s.subrange(leading_spaces(s) as int, s.len() - trailing_spaces(s))
    }
}

/// The text that an optional string holds, if it holds one.
pub open spec fn optional_text(text: Option<String>) -> Option<Seq<char>> {
    match text {
        Some(t) => Some(t@),
        None => None,
    }
}

/// Index of the first `c` in `s`; `s.len()` where `s` holds none.
pub open spec fn first_index_of(s: Seq<char>, c: char) -> int
    decreases s.len(),
{
    if s.len() > 0 && s[0] != c {
        1 + first_index_of(s.drop_first(), c)
    } else {
        0
    }
}

/// What `first_index_of` finds: no `c` stands before it, and `c` stands at
/// it unless it is the length.
pub proof fn lemma_first_index_of(s: Seq<char>, c: char)
    ensures
        0 <= first_index_of(s, c) <= s.len(),
        forall|j: int| 0 <= j < first_index_of(s, c) ==> #[trigger] s[j] != c,
        first_index_of(s, c) < s.len() ==> s[first_index_of(s, c)] == c,
    decreases s.len(),
{
    if s.len() > 0 && s[0] != c {
        let rest = s.drop_first();
        lemma_first_index_of(rest, c);
        assert forall|j: int| 0 <= j < first_index_of(s, c) implies #[trigger] s[j] != c by {
            if j > 0 {
                assert(s[j] == rest[j - 1]);
            }
        }
    }
}

/// The first `c` is where `c` stands with no `c` before it.
pub proof fn lemma_first_index_of_is(s: Seq<char>, c: char, i: int)
    requires
        0 <= i <= s.len(),
        forall|j: int| 0 <= j < i ==> #[trigger] s[j] != c,
        i < s.len() ==> s[i] == c,
    ensures
        first_index_of(s, c) == i,
{
    lemma_first_index_of(s, c);
    let f = first_index_of(s, c);
    if f < i {
        assert(s[f] != c);
    } else if i < f {
        assert(s[i] != c);
    }
}

/// How the first `c` moves when one character is added at the end.
proof fn lemma_first_index_of_push(s: Seq<char>, x: char, c: char)
    ensures
        first_index_of(s.push(x), c) == if first_index_of(s, c) == s.len() && x != c {
            s.len() as int + 1
        } else {
            first_index_of(s, c)
        },
{
    lemma_first_index_of(s, c);
    let f = first_index_of(s, c);
    let longer = s.push(x);
    assert(forall|j: int| 0 <= j < s.len() ==> longer[j] == s[j]);
    if f == s.len() && x != c {
        lemma_first_index_of_is(longer, c, s.len() as int + 1);
    } else {
        lemma_first_index_of_is(longer, c, f);
    }
}

/// Tells whether `c` is white space.
pub fn is_space_char(c: char) -> (b: bool)
    ensures
        b == is_space(c),
{
    let u: u32 = c as u32;
    (0x09 <= u && u <= 0x0D) || u == 0x20 || u == 0x85 || u == 0xA0 || u == 0x1680 || (0x2000 <= u
        && u <= 0x200A) || u == 0x2028 || u == 0x2029 || u == 0x202F || u == 0x205F || u == 0x3000
}

/// What `leading_spaces` counts: white space up to the count, and none at
/// the count.
pub proof fn lemma_leading_spaces(s: Seq<char>)
    ensures
        leading_spaces(s) <= s.len(),
        forall|j: int| 0 <= j < leading_spaces(s) ==> is_space(#[trigger] s[j]),
        leading_spaces(s) < s.len() ==> !is_space(s[leading_spaces(s) as int]),
    decreases s.len(),
{
    if s.len() > 0 && is_space(s[0]) {
        let rest = s.drop_first();
        lemma_leading_spaces(rest);
        assert forall|j: int| 0 <= j < leading_spaces(s) implies is_space(#[trigger] s[j]) by {
            if j > 0 {
                assert(s[j] == rest[j - 1]);
            }
        }
    }
}

/// What `trailing_spaces` counts: white space in the last places, as many
/// as the count, and none before them.
pub proof fn lemma_trailing_spaces(s: Seq<char>)
    ensures
        trailing_spaces(s) <= s.len(),
        forall|j: int| s.len() - trailing_spaces(s) <= j < s.len() ==> is_space(#[trigger] s[j]),
        trailing_spaces(s) < s.len() ==> !is_space(s[s.len() - trailing_spaces(s) - 1]),
    decreases s.len(),
{
    if s.len() > 0 && is_space(s.last()) {
        let rest = s.drop_last();
        lemma_trailing_spaces(rest);
        assert forall|j: int| s.len() - trailing_spaces(s) <= j < s.len() implies is_space(
            #[trigger] s[j],
        ) by {
            if j < s.len() - 1 {
                assert(s[j] == rest[j]);
            }
        }
    }
}

/// How the count of leading white space moves when one character is added
/// at the end.
proof fn lemma_leading_spaces_push(s: Seq<char>, x: char)
    ensures
        leading_spaces(s.push(x)) == if leading_spaces(s) == s.len() && is_space(x) {
            s.len() + 1
        } else {
            leading_spaces(s)
        },
    decreases s.len(),
{
    let longer = s.push(x);
    if s.len() == 0 {
        assert(longer.drop_first() =~= Seq::<char>::empty());
        assert(leading_spaces(longer.drop_first()) == 0);
    } else {
        assert(longer[0] == s[0]);
        assert(longer.drop_first() =~= s.drop_first().push(x));
        lemma_leading_spaces_push(s.drop_first(), x);
        if is_space(s[0]) {
            assert(leading_spaces(longer) == 1 + leading_spaces(s.drop_first().push(x)));
            assert(leading_spaces(s) == 1 + leading_spaces(s.drop_first()));
        }
    }
}

/// A text that neither begins nor ends with white space is its own trimmed
/// form.
pub proof fn lemma_trimmed_of_solid_ends(s: Seq<char>)
    requires
        s.len() > 0 ==> !is_space(s[0]) && !is_space(s.last()),
    ensures
        trimmed(s) == s,
{
    if s.len() > 0 {
        assert(s.subrange(0, s.len() as int) == s);
    }
}

/// Trimming yields a text with no white space at either end, so trimming it
/// once more changes nothing.
pub proof fn lemma_trimmed_idempotent(s: Seq<char>)
    ensures
        trimmed(s).len() > 0 ==> !is_space(trimmed(s)[0]) && !is_space(trimmed(s).last()),
        trimmed(trimmed(s)) == trimmed(s),
{
    lemma_leading_spaces(s);
    lemma_trailing_spaces(s);
    if leading_spaces(s) < s.len() {
        let first = leading_spaces(s) as int;
        let end = s.len() - trailing_spaces(s);
        if end <= first {
            assert(is_space(s[first]));
        }
        assert(trimmed(s)[0] == s[first]);
        assert(trimmed(s).last() == s[end - 1]);
    }
    lemma_trimmed_of_solid_ends(trimmed(s));
}

/// Finds the first `c` in `s`; the number of characters of `s` where it
/// holds none.
pub fn find_char(s: &str, c: char) -> (i: usize)
    ensures
        i == first_index_of(s@, c),
{
    let mut at: usize = 0;
    let mut i: usize = 0;
    let n: usize = s.unicode_len();
    for x in it: s.chars()
        invariant
            i == it.index(),
            n == s@.len(),
            it.seq() == s@,
            at == first_index_of(s@.take(i as int), c),
    {
        proof {
            assert(s@.take(i + 1) == s@.take(i as int).push(x));
            lemma_first_index_of_push(s@.take(i as int), x, c);
        }
        if at == i && x != c {
            at = i + 1;
        }
        i = i + 1;
    }
    assert(s@.take(i as int) == s@);
    at
}

/// A copy of an optional string.
pub fn copy_optional(text: &Option<String>) -> (copy: Option<String>)
    ensures
        optional_text(copy) == optional_text(*text),
{
    match text {
        Some(t) => Some(t.clone()),
        None => None,
    }
}

/// Whether two byte strings are the same. Where they are of one length,
/// every byte is looked at, whatever the bytes before it were.
pub fn same_bytes(a: &[u8], b: &[u8]) -> (same: bool)
    ensures
        same == (a@ == b@),
{
    if a.len() != b.len() {
        return false;
    }
    let mut same = true;
    let mut i: usize = 0;
    assert(a@.take(0) =~= b@.take(0));
    while i < a.len()
        invariant
            i <= a@.len(),
            a@.len() == b@.len(),
            same == (a@.take(i as int) == b@.take(i as int)),
        decreases a@.len() - i,
    {
        if a[i] != b[i] {
            same = false;
        }
        proof {
            let x = a@.take(i + 1);
            let y = b@.take(i + 1);
            assert(x.drop_last() == a@.take(i as int));
            assert(y.drop_last() == b@.take(i as int));
            assert(x.last() == a@[i as int]);
            assert(y.last() == b@[i as int]);
            if same {
                assert(x =~= y);
            }
        }
        i = i + 1;
    }
    assert(a@.take(i as int) == a@);
    assert(b@.take(i as int) == b@);
    same
}

/// Whether two texts hold the same characters.
pub fn same_text(a: &str, b: &str) -> (same: bool)
    ensures
        same == (a@ == b@),
{
    proof {
        vstd::utf8::encode_utf8_decode_utf8(a@);
        vstd::utf8::encode_utf8_decode_utf8(b@);
    }
    same_bytes(a.as_bytes(), b.as_bytes())
}

/// Removes the white space at both ends of `s`.
pub fn trim(s: &str) -> (r: &str)
    ensures
        r@ == trimmed(s@),
{
    let mut start: usize = 0;
    let mut end: usize = 0;
    let mut i: usize = 0;
    let n: usize = s.unicode_len();
    for c in it: s.chars()
        invariant
            i == it.index(),
            n == s@.len(),
            it.seq() == s@,
            start == leading_spaces(s@.take(i as int)),
            end == i - trailing_spaces(s@.take(i as int)),
    {
        proof {
            assert(s@.take(i + 1) == s@.take(i as int).push(c));
            assert(s@.take(i + 1).drop_last() == s@.take(i as int));
            lemma_leading_spaces_push(s@.take(i as int), c);
        }
        let solid = !is_space_char(c);
        if start == i && !solid {
            start = i + 1;
        }
        if solid {
            end = i + 1;
        }
        i = i + 1;
    }
    proof {
        assert(s@.take(i as int) == s@);
        lemma_leading_spaces(s@);
        lemma_trailing_spaces(s@);
        if start < n && end <= start {
            assert(is_space(s@[start as int]));
        }
    }
    if start < n {
        s.substring_char(start, end)
    } else {
        s.substring_char(0, 0)
    }
}

} // verus!
