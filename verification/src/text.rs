//! Byte offsets into UTF-8 text.
//!
//! A text is modelled by the sequence of its characters. Offsets count the bytes
//! of the encoded text, as `str` does.
use vstd::prelude::*;
use vstd::utf8::*;
use vstd::string::*;

verus! {

/// The number of bytes that a character takes in UTF-8.
pub open spec fn utf8_width(c: char) -> nat {
    if c as u32 <= 0x7F {
        1
    } else if c as u32 <= 0x7FF {
        2
    } else if c as u32 <= 0xFFFF {
        3
    } else {
        4
    }
}

/// The byte offset at which the `k`-th character of `s` starts; for `k == s.len()`,
/// the number of bytes of the whole text.
pub open spec fn offset_of(s: Seq<char>, k: int) -> nat
    decreases k,
{
    if k <= 0 {
        0
    } else {
        offset_of(s, k - 1) + utf8_width(s[k - 1])
    }
}

/// The number of bytes of a text.
pub open spec fn byte_len(s: Seq<char>) -> nat {
    offset_of(s, s.len() as int)
}

/// Whether a byte offset lies between two characters, or at either end of the text.
pub open spec fn on_boundary(s: Seq<char>, offset: int) -> bool {
    exists|k: int| 0 <= k <= s.len() && #[trigger] offset_of(s, k) == offset
}

/// The index of the character that starts at a byte offset.
pub open spec fn index_at(s: Seq<char>, offset: int) -> int
    recommends
        on_boundary(s, offset),
{
    choose|k: int| 0 <= k <= s.len() && #[trigger] offset_of(s, k) == offset
}

/// The characters between two byte offsets; nothing where the offsets are out of
/// order, past the end, or inside a character.
pub open spec fn text_slice(s: Seq<char>, start: int, end: int) -> Option<Seq<char>> {
    if start <= end && on_boundary(s, start) && on_boundary(s, end) {
        Some(s.subrange(index_at(s, start), index_at(s, end)))
    } else {
        None
    }
}

/// Offsets grow with the index.
pub proof fn lemma_offset_monotone(s: Seq<char>, i: int, j: int)
    requires
        0 <= i <= j,
    ensures
        offset_of(s, i) + (j - i) <= offset_of(s, j),
    decreases j,
{
    if i < j {
        lemma_offset_monotone(s, i, j - 1);
    }
}

/// No two characters start at the same offset.
pub proof fn lemma_index_at(s: Seq<char>, k: int)
    requires
        0 <= k <= s.len(),
    ensures
        on_boundary(s, offset_of(s, k) as int),
        index_at(s, offset_of(s, k) as int) == k,
{
    let o = offset_of(s, k) as int;
    assert(on_boundary(s, o));
    let i = index_at(s, o);
    if i < k {
        lemma_offset_monotone(s, i, k);
    } else if k < i {
        lemma_offset_monotone(s, k, i);
    }
}

/// Offsets in a text depend on its beginning only.
pub proof fn lemma_offset_prefix(s: Seq<char>, t: Seq<char>, k: int)
    requires
        0 <= k <= s.len(),
        k <= t.len(),
        forall|i: int| 0 <= i < k ==> s[i] == t[i],
    ensures
        offset_of(s, k) == offset_of(t, k),
    decreases k,
{
    if k > 0 {
        lemma_offset_prefix(s, t, k - 1);
    }
}

/// Offsets in a slice are those of the text, counted from the slice's start.
pub proof fn lemma_offset_subrange(s: Seq<char>, i: int, j: int, k: int)
    requires
        0 <= i <= j <= s.len(),
        0 <= k <= j - i,
    ensures
        offset_of(s.subrange(i, j), k) + offset_of(s, i) == offset_of(s, i + k),
    decreases k,
{
    if k > 0 {
        lemma_offset_subrange(s, i, j, k - 1);
    }
}

proof fn lemma_utf8_width(c: char)
    ensures
        encode_scalar(c as u32).len() == utf8_width(c),
{
    char_is_scalar(c);
}

proof fn lemma_encode_concat(a: Seq<char>, b: Seq<char>)
    ensures
        encode_utf8(a + b) == encode_utf8(a) + encode_utf8(b),
    decreases a.len(),
{
    if a.len() == 0 {
        assert(a + b =~= b);
        assert(encode_utf8(a) + encode_utf8(b) =~= encode_utf8(b));
    } else {
        assert((a + b).drop_first() =~= a.drop_first() + b);
        lemma_encode_concat(a.drop_first(), b);
        assert(encode_utf8(a + b) =~= encode_utf8(a) + encode_utf8(b));
    }
}

proof fn lemma_encode_len(s: Seq<char>)
    ensures
        encode_utf8(s).len() == byte_len(s),
    decreases s.len(),
{
    if s.len() > 0 {
        let front = s.drop_last();
        lemma_encode_len(front);
        lemma_encode_concat(front, seq![s.last()]);
        assert(front + seq![s.last()] =~= s);
        lemma_offset_prefix(s, front, front.len() as int);
        lemma_utf8_width(s.last());
        assert(seq![s.last()].drop_first() =~= Seq::<char>::empty());
        assert(encode_utf8(seq![s.last()]) =~= encode_scalar(s.last() as u32)) by {
            reveal_with_fuel(encode_utf8, 2);
        }
    }
}

proof fn lemma_boundary(s: Seq<char>, offset: int)
    ensures
        is_char_boundary(encode_utf8(s), offset) <==> on_boundary(s, offset),
    decreases s.len(),
{
    let bytes = encode_utf8(s);
    encode_utf8_valid_utf8(s);
    lemma_encode_len(s);
    if offset == 0 {
        assert(offset_of(s, 0) == 0);
    } else if offset < 0 || bytes.len() < offset {
        assert forall|k: int| 0 <= k <= s.len() implies #[trigger] offset_of(s, k) != offset by {
            lemma_offset_monotone(s, k, s.len() as int);
        }
    } else {
        let rest = s.drop_first();
        let width = utf8_width(s[0]) as int;
        encode_utf8_first_scalar(s);
        lemma_utf8_width(s[0]);
        assert(pop_first_scalar(bytes) =~= encode_utf8(rest));
        lemma_boundary(rest, offset - width);
        assert(rest =~= s.subrange(1, s.len() as int));
        assert(offset_of(s, 1) == width) by {
            reveal_with_fuel(offset_of, 2);
        }
        if on_boundary(rest, offset - width) {
            let k = index_at(rest, offset - width);
            lemma_offset_subrange(s, 1, s.len() as int, k);
            assert(offset_of(s, k + 1) == offset);
        }
        if on_boundary(s, offset) {
            let k = index_at(s, offset);
            assert(k > 0);
            lemma_offset_subrange(s, 1, s.len() as int, k - 1);
            assert(offset_of(rest, k - 1) == offset - width);
        }
    }
}

proof fn lemma_encode_split(s: Seq<char>, k: int)
    requires
        0 <= k <= s.len(),
    ensures
        offset_of(s, k) <= encode_utf8(s).len(),
        encode_utf8(s.take(k)) == encode_utf8(s).subrange(0, offset_of(s, k) as int),
        encode_utf8(s.skip(k)) == encode_utf8(s).subrange(
            offset_of(s, k) as int,
            encode_utf8(s).len() as int,
        ),
{
    assert(s.take(k) + s.skip(k) =~= s);
    lemma_encode_concat(s.take(k), s.skip(k));
    lemma_encode_len(s.take(k));
    lemma_offset_prefix(s, s.take(k), k);
    assert(encode_utf8(s.take(k)) =~= encode_utf8(s).subrange(0, offset_of(s, k) as int));
    assert(encode_utf8(s.skip(k)) =~= encode_utf8(s).subrange(
        offset_of(s, k) as int,
        encode_utf8(s).len() as int,
    ));
}

proof fn lemma_encode_injective(a: Seq<char>, b: Seq<char>)
    requires
        encode_utf8(a) == encode_utf8(b),
    ensures
        a == b,
{
    encode_utf8_decode_utf8(a);
    encode_utf8_decode_utf8(b);
}

/// A text has as many bytes as its UTF-8 encoding, and a character starts after the bytes
/// that encode those before it.
pub proof fn law_offsets_count_encoded_bytes(s: Seq<char>, k: int)
    requires
        0 <= k <= s.len(),
    ensures
        byte_len(s) == encode_utf8(s).len(),
        offset_of(s, k) == encode_utf8(s.take(k)).len(),
        k < s.len() ==> offset_of(s, k + 1) - offset_of(s, k) == encode_utf8(seq![s[k]]).len(),
{
    lemma_encode_len(s);
    lemma_encode_len(s.take(k));
    lemma_offset_prefix(s, s.take(k), k);
    if k < s.len() {
        let one = seq![s[k]];
        lemma_encode_len(one);
        assert(offset_of(one, 1) == utf8_width(s[k])) by {
            reveal_with_fuel(offset_of, 2);
        }
    }
}

/// A text has a slice between two offsets if and only if both are character boundaries of
/// its UTF-8 encoding, in order, and the slice encodes to the bytes between them.
pub proof fn law_slice_is_encoded_part(s: Seq<char>, start: int, end: int)
    ensures
        text_slice(s, start, end) is Some <==> start <= end && is_char_boundary(
            encode_utf8(s),
            start,
        ) && is_char_boundary(encode_utf8(s), end),
        text_slice(s, start, end) is Some ==> 0 <= start <= end <= encode_utf8(s).len()
            && encode_utf8(text_slice(s, start, end)->0) == encode_utf8(s).subrange(start, end),
{
    lemma_boundary(s, start);
    lemma_boundary(s, end);
    if let Some(part) = text_slice(s, start, end) {
        let i = index_at(s, start);
        let j = index_at(s, end);
        if j < i {
            lemma_offset_monotone(s, j, i);
        }
        let head = s.take(j);
        lemma_encode_split(s, j);
        lemma_offset_prefix(s, head, i);
        lemma_encode_split(head, i);
        assert(part =~= head.skip(i));
        assert(encode_utf8(part) =~= encode_utf8(s).subrange(start, end));
    }
}

/// The number of bytes that `c` takes in UTF-8.
pub fn len_utf8(c: char) -> (n: usize)
    ensures
        n == utf8_width(c),
{
    let code: u32 = c as u32;
    if code <= 0x7F {
        1
    } else if code <= 0x7FF {
        2
    } else if code <= 0xFFFF {
        3
    } else {
        4
    }
}

/// The number of bytes of `text`.
pub fn text_len(text: &str) -> (n: usize)
    ensures
        n == byte_len(text@),
{
    proof {
        lemma_encode_len(text@);
    }
    text.as_bytes().len()
}

/// The part of `text` between two byte offsets, if both are character boundaries in
/// order.
pub fn slice_of(text: &str, start: usize, end: usize) -> (part: Option<&str>)
    ensures
        match part {
            Some(t) => text_slice(text@, start as int, end as int) == Some(t@),
            None => text_slice(text@, start as int, end as int) is None,
        },
{
    proof {
        lemma_boundary(text@, start as int);
        lemma_boundary(text@, end as int);
    }
    if start > end || !text.is_char_boundary(start) || !text.is_char_boundary(end) {
        return None;
    }
    let (head, _) = text.split_at(end);
    let ghost i = index_at(text@, start as int);
    let ghost j = index_at(text@, end as int);
    proof {
        if j < i {
            lemma_offset_monotone(text@, j, i);
        }
        lemma_encode_split(text@, j);
        lemma_encode_injective(head@, text@.take(j));
        lemma_offset_prefix(text@, head@, i);
        assert(offset_of(head@, i) == start);
        lemma_boundary(head@, start as int);
    }
    let (_, part) = head.split_at(start);
    proof {
        lemma_encode_split(head@, i);
        lemma_encode_injective(part@, head@.skip(i));
        assert(part@ =~= text@.subrange(i, j));
    }
    Some(part)
}

/// The byte offsets of all character boundaries of `text`, from 0 to its length.
pub fn char_boundaries(text: &str) -> (offsets: Vec<usize>)
    ensures
        offsets@.len() == text@.len() + 1,
        forall|k: int| 0 <= k <= text@.len() ==> #[trigger] offsets@[k] == offset_of(text@, k),
{
    let len = text_len(text);
    let mut offsets: Vec<usize> = Vec::new();
    let mut offset: usize = 0;
    offsets.push(offset);
    for c in it: text.chars()
        invariant
            it.seq() == text@,
            len == byte_len(text@),
            offset == offset_of(text@, it.index()),
            offsets@.len() == it.index() + 1,
            forall|k: int| 0 <= k <= it.index() ==> #[trigger] offsets@[k] == offset_of(text@, k),
    {
        proof {
            lemma_offset_monotone(text@, it.index() + 1, text@.len() as int);
        }
        offset = offset + len_utf8(c);
        offsets.push(offset);
    }
    offsets
}

} // verus!
