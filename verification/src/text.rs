//! Character-level helpers for reading and building strings.

use vstd::prelude::*;
use vstd::utf8::decode_utf8;
use vstd::utf8::valid_utf8;

verus! {

/// The text that lossy UTF-8 decoding makes of `bytes`.
pub uninterp spec fn lossy_text(bytes: Seq<u8>) -> Seq<char>;

/// The text that `bytes` are read as: the text they encode where they are
/// valid UTF-8, else what lossy decoding makes of them.
pub open spec fn utf8_text(bytes: Seq<u8>) -> Seq<char> {
    if valid_utf8(bytes) {
        decode_utf8(bytes)
    } else {
        lossy_text(bytes)
    }
}

/// Calls `String::from_utf8_lossy`. Valid UTF-8 decodes to the text it
/// encodes; in other input each invalid sequence becomes U+FFFD.
#[verifier::external_body]
pub(crate) fn text_from_utf8_lossy(bytes: &[u8]) -> (s: String)
    ensures
        s@ == lossy_text(bytes@),
        valid_utf8(bytes@) ==> s@ == decode_utf8(bytes@),
{
    String::from_utf8_lossy(bytes).into_owned()
}

/// Reads `bytes` as text, replacing what is not valid UTF-8.
pub fn text_of_bytes(bytes: &[u8]) -> (s: String)
    ensures
        s@ == utf8_text(bytes@),
{
    text_from_utf8_lossy(bytes)
}

/// `String::push` appends exactly one character to the end of the string.
pub assume_specification[ String::push ](s: &mut String, ch: char)
    ensures
        final(s)@ == old(s)@.push(ch),
;

/// The fields of `s` between occurrences of `sep`: one more field than `s`
/// has separators, each free of them, empty ones included.
pub open spec fn split(s: Seq<char>, sep: char) -> Seq<Seq<char>>
    decreases s.len(),
{
    if s.len() == 0 {
        seq![Seq::<char>::empty()]
    } else {
        let head = split(s.drop_last(), sep);
        if s.last() == sep {
            head.push(Seq::<char>::empty())
        } else {
            head.drop_last().push(head.last().push(s.last()))
        }
    }
}

/// Whether `sep` occurs nowhere in `s`.
pub open spec fn free_of(s: Seq<char>, sep: char) -> bool {
    forall|i: int| 0 <= i < s.len() ==> #[trigger] s[i] != sep
}

/// A split has at least one field.
pub proof fn lemma_split_nonempty(s: Seq<char>, sep: char)
    ensures
        split(s, sep).len() >= 1,
    decreases s.len(),
{
    if s.len() > 0 {
        lemma_split_nonempty(s.drop_last(), sep);
    }
}

/// A text without separator is its own single field.
pub proof fn lemma_split_single(b: Seq<char>, sep: char)
    requires
        free_of(b, sep),
    ensures
        split(b, sep) == seq![b],
    decreases b.len(),
{
    if b.len() > 0 {
        assert(b.last() != sep);
        lemma_split_single(b.drop_last(), sep);
        let head = split(b.drop_last(), sep);
        assert(head.drop_last().push(head.last().push(b.last())) =~= seq![b]) by {
            assert(b.drop_last().push(b.last()) =~= b);
        }
    } else {
        assert(seq![Seq::<char>::empty()] =~= seq![b]) by {
            assert(b =~= Seq::<char>::empty());
        }
    }
}

/// Appending a separator and a text without separator adds that text as one
/// more field.
pub proof fn lemma_split_append(a: Seq<char>, b: Seq<char>, sep: char)
    requires
        free_of(b, sep),
    ensures
        split(a + seq![sep] + b, sep) == split(a, sep).push(b),
    decreases b.len(),
{
    let whole = a + seq![sep] + b;
    lemma_split_nonempty(a, sep);
    if b.len() == 0 {
        assert(whole.drop_last() =~= a);
        assert(whole.last() == sep);
        assert(b =~= Seq::<char>::empty());
    } else {
        let b0 = b.drop_last();
        assert(b.last() != sep);
        assert(free_of(b0, sep)) by {
            assert forall|i: int| 0 <= i < b0.len() implies #[trigger] b0[i] != sep by {
                assert(b0[i] == b[i]);
            }
        }
        lemma_split_append(a, b0, sep);
        assert(whole.drop_last() =~= a + seq![sep] + b0);
        assert(whole.last() == b.last());
        let head = split(a, sep).push(b0);
        assert(head.drop_last() =~= split(a, sep));
        assert(b0.push(b.last()) =~= b);
    }
}

/// The bounds of the fields of `v[from..to]` between occurrences of `sep`.
pub fn split_fields(v: &Vec<char>, from: usize, to: usize, sep: char) -> (bounds: Vec<
    (usize, usize),
>)
    requires
        from <= to <= v@.len(),
    ensures
        bounds@.len() == split(v@.subrange(from as int, to as int), sep).len(),
        forall|k: int|
            0 <= k < bounds@.len() ==> from <= (#[trigger] bounds@[k]).0 <= bounds@[k].1 <= to
                && v@.subrange(bounds@[k].0 as int, bounds@[k].1 as int) == split(
                v@.subrange(from as int, to as int),
                sep,
            )[k],
{
    let mut bounds: Vec<(usize, usize)> = Vec::new();
    let mut start: usize = from;
    let mut i: usize = from;
    assert(v@.subrange(from as int, from as int) =~= Seq::<char>::empty());
    while i < to
        invariant
            from <= start <= i <= to <= v@.len(),
            split(v@.subrange(from as int, i as int), sep).len() == bounds@.len() + 1,
            split(v@.subrange(from as int, i as int), sep).last() == v@.subrange(
                start as int,
                i as int,
            ),
            forall|k: int|
                0 <= k < bounds@.len() ==> from <= (#[trigger] bounds@[k]).0 <= bounds@[k].1 <= to
                    && v@.subrange(bounds@[k].0 as int, bounds@[k].1 as int) == split(
                    v@.subrange(from as int, i as int),
                    sep,
                )[k],
        decreases to - i,
    {
        let ghost before = v@.subrange(from as int, i as int);
        let ghost after = v@.subrange(from as int, i + 1);
        let ghost old_bounds = bounds@;
        assert(after.drop_last() =~= before);
        assert(after.last() == v@[i as int]);
        if v[i] == sep {
            bounds.push((start, i));
            start = i + 1;
            assert(v@.subrange(start as int, start as int) =~= Seq::<char>::empty());
            assert forall|k: int| 0 <= k < bounds@.len() implies from <= (#[trigger] bounds@[k]).0
                <= bounds@[k].1 <= to && v@.subrange(bounds@[k].0 as int, bounds@[k].1 as int)
                == split(after, sep)[k] by {
                if k < old_bounds.len() {
                    assert(bounds@[k] == old_bounds[k]);
                }
            }
        } else {
            assert(v@.subrange(start as int, i as int).push(v@[i as int]) =~= v@.subrange(
                start as int,
                i + 1,
            ));
            assert forall|k: int| 0 <= k < bounds@.len() implies from <= (#[trigger] bounds@[k]).0
                <= bounds@[k].1 <= to && v@.subrange(bounds@[k].0 as int, bounds@[k].1 as int)
                == split(after, sep)[k] by {
                assert(bounds@[k] == old_bounds[k]);
            }
        }
        i = i + 1;
    }
    let ghost fields = split(v@.subrange(from as int, to as int), sep);
    let ghost old_bounds = bounds@;
    bounds.push((start, to));
    assert forall|k: int| 0 <= k < bounds@.len() implies from <= (#[trigger] bounds@[k]).0
        <= bounds@[k].1 <= to && v@.subrange(bounds@[k].0 as int, bounds@[k].1 as int)
        == fields[k] by {
        if k < old_bounds.len() {
            assert(bounds@[k] == old_bounds[k]);
        }
    }
    bounds
}

/// The characters of `s`, in order.
pub fn chars_of(s: &str) -> (v: Vec<char>)
    ensures
        v@ == s@,
{
    let mut v: Vec<char> = Vec::new();
    for c in it: s.chars()
        invariant
            v@ == it.seq().take(it.index() as int),
            it.seq() == s@,
    {
        v.push(c);
    }
    v
}

/// The string made of the characters `v[from..to]`.
pub fn string_of(v: &Vec<char>, from: usize, to: usize) -> (s: String)
    requires
        from <= to <= v@.len(),
    ensures
        s@ == v@.subrange(from as int, to as int),
{
    let mut s: String = String::new();
    let mut i: usize = from;
    while i < to
        invariant
            from <= i <= to <= v@.len(),
            s@ == v@.subrange(from as int, i as int),
        decreases to - i,
    {
        s.push(v[i]);
        i = i + 1;
    }
    s
}

/// Whether `s` spells exactly the characters `v[from..to]`.
pub fn range_is(v: &Vec<char>, from: usize, to: usize, s: &str) -> (same: bool)
    requires
        from <= to <= v@.len(),
    ensures
        same == (v@.subrange(from as int, to as int) == s@),
{
    let w: Vec<char> = chars_of(s);
    let ghost part = v@.subrange(from as int, to as int);
    if to - from != w.len() {
        return false;
    }
    let mut i: usize = 0;
    while i < w.len()
        invariant
            from <= to <= v@.len(),
            to - from == w@.len(),
            w@ == s@,
            part == v@.subrange(from as int, to as int),
            i <= w@.len(),
            forall|j: int| 0 <= j < i ==> part[j] == w@[j],
        decreases w@.len() - i,
    {
        assert(part[i as int] == v@[from + i]);
        if v[from + i] != w[i] {
            return false;
        }
        i = i + 1;
    }
    assert(part =~= w@);
    true
}

/// Whether `s` spells exactly the characters of `v`.
pub fn same_text(v: &Vec<char>, s: &str) -> (same: bool)
    ensures
        same == (v@ == s@),
{
    let w: Vec<char> = chars_of(s);
    if v.len() != w.len() {
        return false;
    }
    let mut i: usize = 0;
    while i < v.len()
        invariant
            v@.len() == w@.len(),
            w@ == s@,
            i <= v@.len(),
            forall|j: int| 0 <= j < i ==> v@[j] == w@[j],
        decreases v@.len() - i,
    {
        if v[i] != w[i] {
            assert(v@[i as int] != w@[i as int]);
            return false;
        }
        i = i + 1;
    }
    assert(v@ =~= w@);
    true
}

} // verus!
