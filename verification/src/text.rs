//! Texts as sequences of characters: reading a `&str`, searching for a
//! character, comparing the two ends of a text, and cutting a text at a
//! separator.

use vstd::prelude::*;

verus! {

/// The pieces of `s` between the occurrences of `sep`, in order. A text
/// without a separator is its own single piece; a separator at either end, or
/// two in a row, bound an empty piece.
pub open spec fn split_on(s: Seq<char>, sep: char) -> Seq<Seq<char>>
    decreases s.len(),
    via split_on_decreases
{
    match s.index_of_first(sep) {
        Some(at) => seq![s.subrange(0, at)] + split_on(s.subrange(at + 1, s.len() as int), sep),
        None => seq![s],
    }
}

#[via_fn]
proof fn split_on_decreases(s: Seq<char>, sep: char) {
    s.index_of_first_ensures(sep);
}

/// The texts held by a sequence of character vectors.
pub open spec fn texts(parts: Seq<Vec<char>>) -> Seq<Seq<char>> {
    parts.map_values(|part: Vec<char>| part@)
}

/// The texts held by a sequence of string slices.
pub open spec fn str_texts(strs: Seq<&str>) -> Seq<Seq<char>> {
    strs.map_values(|s: &str| s@)
}

/// `sep` joined between the pieces, the inverse of [`split_on`].
pub open spec fn join_with(pieces: Seq<Seq<char>>, sep: char) -> Seq<char>
    decreases pieces.len(),
{
    if pieces.len() == 0 {
        Seq::empty()
    } else if pieces.len() == 1 {
        pieces[0]
    } else {
        pieces[0] + seq![sep] + join_with(pieces.drop_first(), sep)
    }
}

/// An index that holds `c` and has no `c` before it is the first index of `c`.
pub proof fn lemma_first_index_is(s: Seq<char>, c: char, at: int)
    requires
        0 <= at < s.len(),
        s[at] == c,
        forall|j: int| 0 <= j < at ==> s[j] != c,
    ensures
        s.index_of_first(c) == Some(at),
{
    s.index_of_first_ensures(c);
}

/// An index that holds `c` and has no `c` after it is the last index of `c`.
pub proof fn lemma_last_index_is(s: Seq<char>, c: char, at: int)
    requires
        0 <= at < s.len(),
        s[at] == c,
        forall|j: int| at < j < s.len() ==> s[j] != c,
    ensures
        s.index_of_last(c) == Some(at),
{
    s.index_of_last_ensures(c);
}

/// A text without the separator is a single piece.
pub proof fn lemma_split_without_separator(s: Seq<char>, sep: char)
    requires
        !s.contains(sep),
    ensures
        split_on(s, sep) == seq![s],
{
    s.index_of_first_ensures(sep);
}

/// A text is cut at its first separator: the piece before it, then the
/// pieces of what follows it.
pub proof fn lemma_split_at_first_separator(s: Seq<char>, sep: char, at: int)
    requires
        0 <= at < s.len(),
        s[at] == sep,
        forall|j: int| 0 <= j < at ==> s[j] != sep,
    ensures
        split_on(s, sep) == seq![s.subrange(0, at)] + split_on(
            s.subrange(at + 1, s.len() as int),
            sep,
        ),
{
    lemma_first_index_is(s, sep, at);
}

/// Splitting yields at least one piece, no piece holds the separator, and the
/// pieces joined by the separator give the text back.
pub proof fn lemma_split_on_properties(s: Seq<char>, sep: char)
    ensures
        split_on(s, sep).len() >= 1,
        split_on(s, sep).len() == 1 <==> !s.contains(sep),
        forall|i: int| 0 <= i < split_on(s, sep).len() ==> !(#[trigger] split_on(s, sep)[i]).contains(sep),
        join_with(split_on(s, sep), sep) == s,
    decreases s.len(),
{
    s.index_of_first_ensures(sep);
    match s.index_of_first(sep) {
        Some(at) => {
            let head = s.subrange(0, at);
            let rest = s.subrange(at + 1, s.len() as int);
            let pieces = split_on(s, sep);
            lemma_split_on_properties(rest, sep);
            assert(pieces.drop_first() =~= split_on(rest, sep));
            assert(pieces[0] == head);
            assert(!head.contains(sep));
            assert forall|i: int| 0 <= i < pieces.len() implies !(#[trigger] pieces[i]).contains(
                sep,
            ) by {
                if i > 0 {
                    assert(pieces[i] == split_on(rest, sep)[i - 1]);
                }
            }
            assert(head + seq![sep] + rest =~= s);
        },
        None => {},
    }
}

/// The last piece of a text is the end of the text, from just behind its
/// last separator.
pub proof fn lemma_split_on_last(s: Seq<char>, sep: char)
    ensures
        split_on(s, sep).len() >= 1,
        split_on(s, sep).last().is_suffix_of(s),
        !split_on(s, sep).last().contains(sep),
        split_on(s, sep).last().len() < s.len() ==> s[s.len() - split_on(s, sep).last().len() - 1]
            == sep,
    decreases s.len(),
{
    s.index_of_first_ensures(sep);
    match s.index_of_first(sep) {
        Some(at) => {
            let rest = s.subrange(at + 1, s.len() as int);
            lemma_split_on_last(rest, sep);
            let last = split_on(rest, sep).last();
            assert(split_on(s, sep).last() == last);
            assert(last =~= s.subrange(s.len() - last.len(), s.len() as int)) by {
                assert(last =~= rest.subrange(rest.len() - last.len(), rest.len() as int));
            }
            if last.len() < rest.len() {
                assert(s[s.len() - last.len() - 1] == rest[rest.len() - last.len() - 1]);
            }
        },
        None => {
            assert(s =~= s.subrange(0, s.len() as int));
        },
    }
}

/// A text ends with a suffix free of the separator exactly when its last
/// piece does.
pub proof fn lemma_suffix_of_last_piece(s: Seq<char>, sep: char, suffix: Seq<char>)
    requires
        !suffix.contains(sep),
    ensures
        suffix.is_suffix_of(split_on(s, sep).last()) <==> suffix.is_suffix_of(s),
{
    lemma_split_on_last(s, sep);
    let last = split_on(s, sep).last();
    assert(last =~= s.subrange(s.len() - last.len(), s.len() as int));
    if suffix.is_suffix_of(last) {
        assert(suffix =~= s.subrange(s.len() - suffix.len(), s.len() as int)) by {
            assert(suffix =~= last.subrange(last.len() - suffix.len(), last.len() as int));
        }
    }
    if suffix.is_suffix_of(s) {
        assert(suffix =~= s.subrange(s.len() - suffix.len(), s.len() as int));
        if suffix.len() > last.len() {
            let at = s.len() - last.len() - 1;
            assert(suffix[at - (s.len() - suffix.len())] == s[at]);
        }
        assert(suffix =~= last.subrange(last.len() - suffix.len(), last.len() as int));
    }
}

/// The characters of `s`, in order.
pub fn chars_of(s: &str) -> (chars: Vec<char>)
    ensures
        chars@ == s@,
{
    let mut chars: Vec<char> = Vec::new();
    for c in it: s.chars()
        invariant
            chars@ == it.seq().take(it.index()),
            it.seq() == s@,
    {
        chars.push(c);
    }
    chars
}

/// The first index of `c` in `text`, if it occurs.
pub fn find_first(text: &[char], c: char) -> (found: Option<usize>)
    ensures
        match found {
            Some(at) => text@.index_of_first(c) == Some(at as int),
            None => text@.index_of_first(c) is None,
        },
{
    let mut i: usize = 0;
    while i < text.len()
        invariant
            i <= text.len(),
            forall|j: int| 0 <= j < i ==> text@[j] != c,
        decreases text.len() - i,
    {
        if text[i] == c {
            proof {
                lemma_first_index_is(text@, c, i as int);
            }
            return Some(i);
        }
        i += 1;
    }
    proof {
        text@.index_of_first_ensures(c);
    }
    None
}

/// The last index of `c` in `text`, if it occurs.
pub fn find_last(text: &[char], c: char) -> (found: Option<usize>)
    ensures
        match found {
            Some(at) => text@.index_of_last(c) == Some(at as int),
            None => text@.index_of_last(c) is None,
        },
{
    let mut i: usize = text.len();
    while i > 0
        invariant
            i <= text.len(),
            forall|j: int| i <= j < text.len() ==> text@[j] != c,
        decreases i,
    {
        i -= 1;
        if text[i] == c {
            proof {
                lemma_last_index_is(text@, c, i as int);
            }
            return Some(i);
        }
    }
    proof {
        text@.index_of_last_ensures(c);
    }
    None
}

/// Whether the two texts hold the same characters.
pub fn same_text(a: &[char], b: &[char]) -> (same: bool)
    ensures
        same == (a@ == b@),
{
    if a.len() != b.len() {
        return false;
    }
    let mut i: usize = 0;
    while i < a.len()
        invariant
            i <= a.len(),
            a.len() == b.len(),
            forall|j: int| 0 <= j < i ==> a@[j] == b@[j],
        decreases a.len() - i,
    {
        if a[i] != b[i] {
            return false;
        }
        i += 1;
    }
    assert(a@ =~= b@);
    true
}

/// Whether `text` begins with `prefix`.
pub fn starts_with(text: &[char], prefix: &[char]) -> (yes: bool)
    ensures
        yes == prefix@.is_prefix_of(text@),
{
    if prefix.len() > text.len() {
        return false;
    }
    let mut i: usize = 0;
    while i < prefix.len()
        invariant
            i <= prefix.len() <= text.len(),
            forall|j: int| 0 <= j < i ==> text@[j] == prefix@[j],
        decreases prefix.len() - i,
    {
        if text[i] != prefix[i] {
            assert(text@.subrange(0, prefix.len() as int)[i as int] != prefix@[i as int]);
            return false;
        }
        i += 1;
    }
    assert(prefix@ =~= text@.subrange(0, prefix.len() as int));
    true
}

/// Whether `text` ends with `suffix`.
pub fn ends_with(text: &[char], suffix: &[char]) -> (yes: bool)
    ensures
        yes == suffix@.is_suffix_of(text@),
{
    if suffix.len() > text.len() {
        return false;
    }
    let shift: usize = text.len() - suffix.len();
    let mut i: usize = 0;
    while i < suffix.len()
        invariant
            i <= suffix.len() <= text.len(),
            shift == text.len() - suffix.len(),
            forall|j: int| 0 <= j < i ==> text@[shift + j] == suffix@[j],
        decreases suffix.len() - i,
    {
        if text[shift + i] != suffix[i] {
            assert(text@.subrange(shift as int, text.len() as int)[i as int] != suffix@[i as int]);
            return false;
        }
        i += 1;
    }
    assert(suffix@ =~= text@.subrange(shift as int, text.len() as int));
    true
}

/// The pieces of `text` between the occurrences of `sep`.
pub fn split_chars(text: &[char], sep: char) -> (parts: Vec<Vec<char>>)
    ensures
        texts(parts@) == split_on(text@, sep),
{
    let mut parts: Vec<Vec<char>> = Vec::new();
    let mut current: Vec<char> = Vec::new();
    let ghost mut start: int = 0;
    let mut i: usize = 0;
    assert(texts(parts@) =~= Seq::empty());
    assert(text@.subrange(0, text.len() as int) =~= text@);
    while i < text.len()
        invariant
            0 <= start <= i <= text.len(),
            current@ == text@.subrange(start, i as int),
            forall|j: int| start <= j < i ==> text@[j] != sep,
            split_on(text@, sep) == texts(parts@) + split_on(
                text@.subrange(start, text.len() as int),
                sep,
            ),
        decreases text.len() - i,
    {
        let c = text[i];
        if c == sep {
            proof {
                let rest = text@.subrange(start, text.len() as int);
                lemma_split_at_first_separator(rest, sep, i - start);
                assert(rest.subrange(0, i - start) =~= current@);
                assert(rest.subrange(i - start + 1, rest.len() as int) =~= text@.subrange(
                    i + 1,
                    text.len() as int,
                ));
                assert(texts(parts@.push(current)) =~= texts(parts@) + seq![current@]);
                start = i + 1;
            }
            parts.push(current);
            current = Vec::new();
            assert(current@ =~= text@.subrange(start, i + 1));
        } else {
            current.push(c);
            assert(current@ =~= text@.subrange(start, i + 1));
        }
        i += 1;
    }
    proof {
        let rest = text@.subrange(start, text.len() as int);
        assert(!rest.contains(sep));
        lemma_split_without_separator(rest, sep);
        assert(texts(parts@.push(current)) =~= texts(parts@) + seq![current@]);
    }
    parts.push(current);
    parts
}

} // verus!
