//! Text as sequences of characters: splitting, trimming and joining, with the
//! executable helpers that move between `&str`, `String` and `Vec<char>`.

use vstd::prelude::*;

verus! {

/// `String::push` appends one character to the end of the string.
pub assume_specification[ String::push ](s: &mut String, ch: char)
    ensures
        final(s)@ == old(s)@.push(ch),
;

/// White space as Unicode defines it (the `White_Space` property).
pub open spec fn is_space(c: char) -> bool {
    ||| '\u{9}' <= c <= '\u{d}'
    ||| c == ' '
    ||| c == '\u{85}'
    ||| c == '\u{a0}'
    ||| c == '\u{1680}'
    ||| '\u{2000}' <= c <= '\u{200a}'
    ||| c == '\u{2028}'
    ||| c == '\u{2029}'
    ||| c == '\u{202f}'
    ||| c == '\u{205f}'
    ||| c == '\u{3000}'
}

/// `s` without its leading white space.
pub open spec fn trim_start(s: Seq<char>) -> Seq<char>
    decreases s.len(),
{
    if s.len() > 0 && is_space(s[0]) {
        trim_start(s.drop_first())
    } else {
        s
    }
}

/// `s` without its trailing white space.
pub open spec fn trim_end(s: Seq<char>) -> Seq<char>
    decreases s.len(),
{
    if s.len() > 0 && is_space(s.last()) {
        trim_end(s.drop_last())
    } else {
        s
    }
}

/// `s` without leading and trailing white space.
pub open spec fn trim(s: Seq<char>) -> Seq<char> {
    trim_end(trim_start(s))
}

/// The pieces of `s` between occurrences of `sep`. There is always at least
/// one piece; two separators in a row enclose an empty piece.
pub open spec fn split(s: Seq<char>, sep: char) -> Seq<Seq<char>>
    decreases s.len(),
{
    if s.len() == 0 {
        seq![Seq::<char>::empty()]
    } else {
        let before = split(s.drop_last(), sep);
        if s.last() == sep {
            before.push(Seq::<char>::empty())
        } else {
            before.update(before.len() - 1, before.last().push(s.last()))
        }
    }
}

/// The parts in order, with `sep` between each two neighbours.
pub open spec fn join(parts: Seq<Seq<char>>, sep: Seq<char>) -> Seq<char>
    decreases parts.len(),
{
    if parts.len() == 0 {
        Seq::<char>::empty()
    } else if parts.len() == 1 {
        parts[0]
    } else {
        join(parts.drop_last(), sep) + sep + parts.last()
    }
}

/// No character of `s` is `c`.
pub open spec fn free_of(s: Seq<char>, c: char) -> bool {
    forall|i: int| 0 <= i < s.len() ==> s[i] != c
}

/// A split never yields an empty list of pieces.
pub proof fn lemma_split_nonempty(s: Seq<char>, sep: char)
    ensures
        split(s, sep).len() >= 1,
    decreases s.len(),
{
    if s.len() > 0 {
        lemma_split_nonempty(s.drop_last(), sep);
    }
}

/// Appending a run without separators lengthens the last piece.
pub proof fn lemma_split_append_free(s: Seq<char>, tail: Seq<char>, sep: char)
    requires
        free_of(tail, sep),
    ensures
        split(s + tail, sep).len() == split(s, sep).len(),
        split(s + tail, sep) == split(s, sep).update(
            split(s, sep).len() - 1,
            split(s, sep).last() + tail,
        ),
    decreases tail.len(),
{
    lemma_split_nonempty(s, sep);
    let base = split(s, sep);
    if tail.len() == 0 {
        assert(s + tail == s);
        assert(base.last() + tail == base.last());
        assert(base.update(base.len() - 1, base.last()) == base);
    } else {
        let shorter = tail.drop_last();
        lemma_split_append_free(s, shorter, sep);
        assert((s + tail).drop_last() == s + shorter);
        assert((s + tail).last() == tail.last());
        let mid = split(s + shorter, sep);
        assert(mid.last().push(tail.last()) == base.last() + tail);
        assert(mid.update(mid.len() - 1, mid.last().push(tail.last())) == base.update(
            base.len() - 1,
            base.last() + tail,
        ));
    }
}

/// A text without separators is its own single piece.
pub proof fn lemma_split_free(s: Seq<char>, sep: char)
    requires
        free_of(s, sep),
    ensures
        split(s, sep) == seq![s],
{
    let none = Seq::<char>::empty();
    lemma_split_append_free(none, s, sep);
    assert(none + s == s);
    assert(split(none, sep) == seq![none]);
    assert(seq![none].update(0, none + s) == seq![s]);
}

/// Appending a separator and then a run without separators adds that run as
/// a new last piece.
pub proof fn lemma_split_append_piece(s: Seq<char>, tail: Seq<char>, sep: char)
    requires
        free_of(tail, sep),
    ensures
        split(s.push(sep) + tail, sep) == split(s, sep).push(tail),
{
    let with_sep = s.push(sep);
    assert(with_sep.drop_last() == s);
    lemma_split_nonempty(s, sep);
    lemma_split_append_free(with_sep, tail, sep);
    let base = split(s, sep);
    let none = Seq::<char>::empty();
    assert(split(with_sep, sep) == base.push(none));
    assert(none + tail == tail);
    assert(base.push(none).update(base.len() as int, tail) == base.push(tail));
}

/// Joining pieces that hold no separator and splitting again gives the pieces back.
pub proof fn lemma_split_join(parts: Seq<Seq<char>>, sep: char)
    requires
        parts.len() >= 1,
        forall|i: int| 0 <= i < parts.len() ==> free_of(#[trigger] parts[i], sep),
    ensures
        split(join(parts, seq![sep]), sep) == parts,
    decreases parts.len(),
{
    if parts.len() == 1 {
        lemma_split_free(parts[0], sep);
        assert(seq![parts[0]] == parts);
    } else {
        let head = parts.drop_last();
        assert forall|i: int| 0 <= i < head.len() implies free_of(#[trigger] head[i], sep) by {
            assert(head[i] == parts[i]);
        }
        lemma_split_join(head, sep);
        let joined = join(head, seq![sep]);
        assert(joined + seq![sep] == joined.push(sep));
        lemma_split_append_piece(joined, parts.last(), sep);
        assert(head.push(parts.last()) == parts);
    }
}

/// A text that neither starts nor ends with white space is already trimmed.
pub proof fn lemma_trim_tight(s: Seq<char>)
    requires
        s.len() == 0 || (!is_space(s[0]) && !is_space(s.last())),
    ensures
        trim(s) == s,
{
}

/// Leading white space in front of a tight text is trimmed away.
pub proof fn lemma_trim_leading(pad: Seq<char>, s: Seq<char>)
    requires
        forall|i: int| 0 <= i < pad.len() ==> is_space(#[trigger] pad[i]),
        s.len() > 0,
        !is_space(s[0]),
        !is_space(s.last()),
    ensures
        trim(pad + s) == s,
    decreases pad.len(),
{
    if pad.len() == 0 {
        assert(pad + s == s);
    } else {
        let rest = pad.drop_first();
        assert((pad + s).drop_first() == rest + s);
        assert((pad + s)[0] == pad[0]);
        assert forall|i: int| 0 <= i < rest.len() implies is_space(#[trigger] rest[i]) by {
            assert(rest[i] == pad[i + 1]);
        }
        lemma_trim_leading(rest, s);
        assert(trim_start(pad + s) == trim_start(rest + s));
        if rest.len() == 0 {
            assert(rest + s == s);
        }
    }
}

/// Whether `c` is white space.
pub fn is_space_char(c: char) -> (r: bool)
    ensures
        r == is_space(c),
{
    ('\u{9}' <= c && c <= '\u{d}') || c == ' ' || c == '\u{85}' || c == '\u{a0}' || c == '\u{1680}'
        || ('\u{2000}' <= c && c <= '\u{200a}') || c == '\u{2028}' || c == '\u{2029}' || c
        == '\u{202f}' || c == '\u{205f}' || c == '\u{3000}'
}

/// The characters of `s`, in order.
pub fn chars_of(s: &str) -> (out: Vec<char>)
    ensures
        out@ == s@,
{
    let mut out: Vec<char> = Vec::new();
    let it = s.chars();
    for c in iter: it
        invariant
            out@ == iter.seq().take(iter.index()),
    {
        out.push(c);
    }
    out
}

/// Appends `chars[from..to]` to `out`.
pub(crate) fn push_chars(out: &mut String, chars: &Vec<char>, from: usize, to: usize)
    requires
        from <= to <= chars.len(),
    ensures
        final(out)@ == old(out)@ + chars@.subrange(from as int, to as int),
{
    let mut i: usize = from;
    while i < to
        invariant
            from <= i <= to <= chars.len(),
            out@ == old(out)@ + chars@.subrange(from as int, i as int),
        decreases to - i,
    {
        out.push(chars[i]);
        i += 1;
        assert(chars@.subrange(from as int, i as int) == chars@.subrange(
            from as int,
            i as int - 1,
        ).push(chars@[i as int - 1]));
    }
}

/// The bounds of `chars[from..to]` once leading and trailing white space is
/// left out.
pub(crate) fn trim_range(chars: &Vec<char>, from: usize, to: usize) -> (r: (usize, usize))
    requires
        from <= to <= chars.len(),
    ensures
        from <= r.0 <= r.1 <= to,
        chars@.subrange(r.0 as int, r.1 as int) == trim(chars@.subrange(from as int, to as int)),
{
    let mut a: usize = from;
    while a < to && is_space_char(chars[a])
        invariant
            from <= a <= to <= chars.len(),
            trim_start(chars@.subrange(from as int, to as int)) == trim_start(
                chars@.subrange(a as int, to as int),
            ),
        decreases to - a,
    {
        assert(chars@.subrange(a as int, to as int).drop_first() == chars@.subrange(
            a as int + 1,
            to as int,
        ));
        a += 1;
    }
    let mut b: usize = to;
    while a < b && is_space_char(chars[b - 1])
        invariant
            a <= b <= to <= chars.len(),
            trim_end(chars@.subrange(a as int, to as int)) == trim_end(
                chars@.subrange(a as int, b as int),
            ),
        decreases b - a,
    {
        assert(chars@.subrange(a as int, b as int).drop_last() == chars@.subrange(
            a as int,
            b as int - 1,
        ));
        b -= 1;
    }
    (a, b)
}

/// The bounds of the pieces of `chars[from..to]` between occurrences of `sep`.
pub(crate) fn split_ranges(chars: &Vec<char>, from: usize, to: usize, sep: char) -> (r: Vec<
    (usize, usize),
>)
    requires
        from <= to <= chars.len(),
    ensures
        r@.len() == split(chars@.subrange(from as int, to as int), sep).len(),
        forall|k: int|
            0 <= k < r@.len() ==> from <= (#[trigger] r@[k]).0 <= r@[k].1 <= to
                && chars@.subrange(r@[k].0 as int, r@[k].1 as int) == split(
                chars@.subrange(from as int, to as int),
                sep,
            )[k],
{
    let mut done: Vec<(usize, usize)> = Vec::new();
    let mut start: usize = from;
    let mut i: usize = from;
    assert(chars@.subrange(from as int, from as int) == Seq::<char>::empty());
    while i < to
        invariant
            from <= start <= i <= to <= chars.len(),
            split(chars@.subrange(from as int, i as int), sep).len() == done@.len() + 1,
            split(chars@.subrange(from as int, i as int), sep).last() == chars@.subrange(
                start as int,
                i as int,
            ),
            forall|k: int|
                0 <= k < done@.len() ==> from <= (#[trigger] done@[k]).0 <= done@[k].1 <= to
                    && chars@.subrange(done@[k].0 as int, done@[k].1 as int) == split(
                    chars@.subrange(from as int, i as int),
                    sep,
                )[k],
        decreases to - i,
    {
        proof {
            let next = chars@.subrange(from as int, i as int + 1);
            assert(next.drop_last() == chars@.subrange(from as int, i as int));
            assert(next.last() == chars@[i as int]);
            assert(chars@.subrange(start as int, i as int).push(chars@[i as int])
                == chars@.subrange(start as int, i as int + 1));
            assert(chars@.subrange(i as int + 1, i as int + 1) == Seq::<char>::empty());
        }
        if chars[i] == sep {
            done.push((start, i));
            start = i + 1;
        }
        i += 1;
    }
    done.push((start, to));
    done
}

} // verus!
