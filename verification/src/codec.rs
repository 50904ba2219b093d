//! The pending-versions field: a list of version tokens kept as one line of
//! text, such as `1.2, 3.4, 5`.
//!
//! Writing the field puts the tokens in ascending order, keeps one of each
//! version and joins them with `", "`. Reading it is forgiving: white space
//! around the text and around commas is skipped, and a piece that is no
//! version is left out.

use crate::text::{
    chars_of, free_of, is_space, join, lemma_split_append_piece, lemma_split_free,
    lemma_trim_leading, lemma_trim_tight, split, split_ranges, trim, trim_range,
};
use crate::version::{
    is_digit, lemma_decimal_text, lemma_digits_plain, lemma_order_total,
    lemma_parse_version_text, lemma_precedes_respects_same, lemma_precedes_transitive,
    lemma_same_version_equivalence, parse_version, precedes,
    same_version, segment_texts, valid_version, version_text, VersionOrder, VersionToken,
};
use vstd::prelude::*;

verus! {

/// The versions that a list of tokens holds.
pub open spec fn views(tokens: Seq<VersionToken>) -> Seq<Seq<nat>> {
    Seq::new(tokens.len(), |i: int| tokens[i]@)
}

/// `list` with `token` put in front of the first entry that comes after it,
/// unless an entry is the same version: then `list` unchanged.
pub open spec fn sorted_insert(list: Seq<Seq<nat>>, token: Seq<nat>) -> Seq<Seq<nat>>
    decreases list.len(),
{
    if list.len() == 0 {
        seq![token]
    } else if precedes(token, list[0]) {
        seq![token] + list
    } else if same_version(token, list[0]) {
        list
    } else {
        seq![list[0]] + sorted_insert(list.drop_first(), token)
    }
}

/// The tokens in ascending order, one of each version: where several tokens
/// are the same version, the one that stands first in `tokens` is kept.
pub open spec fn canonical(tokens: Seq<Seq<nat>>) -> Seq<Seq<nat>>
    decreases tokens.len(),
{
    if tokens.len() == 0 {
        Seq::<Seq<nat>>::empty()
    } else {
        sorted_insert(canonical(tokens.drop_last()), tokens.last())
    }
}

/// Each entry comes before all later ones; so no version occurs twice.
pub open spec fn ascending(list: Seq<Seq<nat>>) -> bool {
    forall|i: int, j: int| 0 <= i < j < list.len() ==> precedes(#[trigger] list[i], #[trigger] list[j])
}

/// The text form of each token.
pub open spec fn version_texts(tokens: Seq<Seq<nat>>) -> Seq<Seq<char>> {
    Seq::new(tokens.len(), |i: int| version_text(tokens[i]))
}

/// The field text for a list of tokens.
pub open spec fn encode_text(tokens: Seq<Seq<nat>>) -> Seq<char> {
    join(version_texts(canonical(tokens)), seq![',', ' '])
}

/// The versions among the pieces, in the order of the pieces; each piece is
/// trimmed first, and a piece that is no version is left out.
pub open spec fn read_pieces(pieces: Seq<Seq<char>>) -> Seq<Seq<nat>>
    decreases pieces.len(),
{
    if pieces.len() == 0 {
        Seq::<Seq<nat>>::empty()
    } else {
        let head = read_pieces(pieces.drop_last());
        match parse_version(trim(pieces.last())) {
            Some(v) => head.push(v),
            None => head,
        }
    }
}

/// The tokens that a field text holds.
pub open spec fn decode_text(text: Seq<char>) -> Seq<Seq<nat>> {
    read_pieces(split(trim(text), ','))
}

/// `token` is an entry of `list`.
pub open spec fn member(list: Seq<Seq<nat>>, token: Seq<nat>) -> bool {
    exists|i: int| 0 <= i < list.len() && #[trigger] list[i] == token
}

/// Some entry of `list` is the same version as `token`.
pub open spec fn any_same(list: Seq<Seq<nat>>, token: Seq<nat>) -> bool {
    exists|i: int| 0 <= i < list.len() && same_version(#[trigger] list[i], token)
}

/// No token that stands before `tokens[i]` is the same version as it.
pub open spec fn first_of_version(tokens: Seq<Seq<nat>>, i: int) -> bool {
    forall|k: int| 0 <= k < i ==> !same_version(#[trigger] tokens[k], tokens[i])
}

/// `entry` is one of the tokens, and the first of its version among them.
pub open spec fn is_first_of_version(tokens: Seq<Seq<nat>>, entry: Seq<nat>) -> bool {
    exists|i: int| 0 <= i < tokens.len() && #[trigger] tokens[i] == entry && first_of_version(tokens, i)
}

/// An insertion adds nothing but the token.
pub proof fn lemma_sorted_insert_members(list: Seq<Seq<nat>>, token: Seq<nat>)
    ensures
        forall|j: int|
            0 <= j < sorted_insert(list, token).len() ==> {
                let entry = #[trigger] sorted_insert(list, token)[j];
                entry == token || member(list, entry)
            },
    decreases list.len(),
{
    let out = sorted_insert(list, token);
    if list.len() == 0 {
    } else if precedes(token, list[0]) {
        assert forall|j: int| 0 <= j < out.len() implies (#[trigger] out[j] == token || member(
            list,
            out[j],
        )) by {
            if j > 0 {
                assert(list[j - 1] == out[j]);
            }
        }
    } else if same_version(token, list[0]) {
        assert forall|j: int| 0 <= j < out.len() implies (#[trigger] out[j] == token || member(
            list,
            out[j],
        )) by {
            assert(list[j] == out[j]);
        }
    } else {
        let rest = list.drop_first();
        lemma_sorted_insert_members(rest, token);
        assert forall|j: int| 0 <= j < out.len() implies (#[trigger] out[j] == token || member(
            list,
            out[j],
        )) by {
            if j == 0 {
                assert(list[0] == out[0]);
            } else {
                let entry = sorted_insert(rest, token)[j - 1];
                assert(entry == out[j]);
                if entry != token {
                    let i = choose|i: int| 0 <= i < rest.len() && #[trigger] rest[i] == entry;
                    assert(list[i + 1] == entry);
                }
            }
        }
    }
}

/// An insertion keeps an ascending list ascending.
pub proof fn lemma_sorted_insert_ascending(list: Seq<Seq<nat>>, token: Seq<nat>)
    requires
        ascending(list),
    ensures
        ascending(sorted_insert(list, token)),
    decreases list.len(),
{
    let out = sorted_insert(list, token);
    if list.len() == 0 {
    } else if precedes(token, list[0]) {
        assert forall|i: int, j: int| 0 <= i < j < out.len() implies precedes(
            #[trigger] out[i],
            #[trigger] out[j],
        ) by {
            if i == 0 {
                if j > 1 {
                    assert(precedes(list[0], list[j - 1]));
                    lemma_precedes_transitive(token, list[0], list[j - 1]);
                }
            } else {
                assert(precedes(list[i - 1], list[j - 1]));
            }
        }
    } else if same_version(token, list[0]) {
    } else {
        let rest = list.drop_first();
        assert forall|i: int, j: int| 0 <= i < j < rest.len() implies precedes(
            #[trigger] rest[i],
            #[trigger] rest[j],
        ) by {
            assert(precedes(list[i + 1], list[j + 1]));
        }
        lemma_sorted_insert_ascending(rest, token);
        lemma_sorted_insert_members(rest, token);
        lemma_order_total(token, list[0]);
        let tail = sorted_insert(rest, token);
        assert forall|i: int, j: int| 0 <= i < j < out.len() implies precedes(
            #[trigger] out[i],
            #[trigger] out[j],
        ) by {
            if i == 0 {
                let entry = tail[j - 1];
                assert(out[j] == entry);
                if entry != token {
                    let m = choose|m: int| 0 <= m < rest.len() && #[trigger] rest[m] == entry;
                    assert(precedes(list[0], list[m + 1]));
                }
            } else {
                assert(precedes(tail[i - 1], tail[j - 1]));
            }
        }
    }
}

/// A token that comes after every entry is put at the end.
pub proof fn lemma_sorted_insert_last(list: Seq<Seq<nat>>, token: Seq<nat>)
    requires
        forall|i: int| 0 <= i < list.len() ==> precedes(#[trigger] list[i], token),
    ensures
        sorted_insert(list, token) == list.push(token),
    decreases list.len(),
{
    if list.len() > 0 {
        lemma_order_total(token, list[0]);
        let rest = list.drop_first();
        assert forall|i: int| 0 <= i < rest.len() implies precedes(#[trigger] rest[i], token) by {
            assert(rest[i] == list[i + 1]);
        }
        lemma_sorted_insert_last(rest, token);
        assert(seq![list[0]] + rest.push(token) == list.push(token));
    }
}

/// Every entry of the canonical list is one of the tokens.
pub proof fn lemma_canonical_members(tokens: Seq<Seq<nat>>)
    ensures
        forall|j: int|
            0 <= j < canonical(tokens).len() ==> member(tokens, #[trigger] canonical(tokens)[j]),
    decreases tokens.len(),
{
    if tokens.len() > 0 {
        let head = tokens.drop_last();
        lemma_canonical_members(head);
        lemma_sorted_insert_members(canonical(head), tokens.last());
        let out = canonical(tokens);
        assert forall|j: int| 0 <= j < out.len() implies member(tokens, #[trigger] out[j]) by {
            let entry = out[j];
            if entry == tokens.last() {
                assert(tokens[tokens.len() - 1] == entry);
            } else {
                let m = choose|m: int|
                    0 <= m < canonical(head).len() && #[trigger] canonical(head)[m] == entry;
                let i = choose|i: int| 0 <= i < head.len() && #[trigger] head[i] == entry;
                assert(tokens[i] == entry);
            }
        }
    }
}

/// The canonical list is in ascending order and holds no version twice.
pub proof fn lemma_canonical_ascending(tokens: Seq<Seq<nat>>)
    ensures
        ascending(canonical(tokens)),
    decreases tokens.len(),
{
    if tokens.len() > 0 {
        lemma_canonical_ascending(tokens.drop_last());
        lemma_sorted_insert_ascending(canonical(tokens.drop_last()), tokens.last());
    }
}

/// A list that is already in ascending order is its own canonical list.
pub proof fn lemma_canonical_of_ascending(list: Seq<Seq<nat>>)
    requires
        ascending(list),
    ensures
        canonical(list) == list,
    decreases list.len(),
{
    if list.len() > 0 {
        let head = list.drop_last();
        assert forall|i: int, j: int| 0 <= i < j < head.len() implies precedes(
            #[trigger] head[i],
            #[trigger] head[j],
        ) by {
            assert(precedes(list[i], list[j]));
        }
        lemma_canonical_of_ascending(head);
        assert forall|i: int| 0 <= i < head.len() implies precedes(#[trigger] head[i], list.last()) by {
            assert(precedes(list[i], list[list.len() - 1]));
        }
        lemma_sorted_insert_last(head, list.last());
        assert(head.push(list.last()) == list);
    }
}

/// Putting a list in canonical form twice changes nothing more.
pub proof fn lemma_canonical_idempotent(tokens: Seq<Seq<nat>>)
    ensures
        canonical(canonical(tokens)) == canonical(tokens),
{
    lemma_canonical_ascending(tokens);
    lemma_canonical_of_ascending(canonical(tokens));
}

/// An insertion keeps every entry, and after it the list holds the token's
/// version.
pub proof fn lemma_sorted_insert_keeps(list: Seq<Seq<nat>>, token: Seq<nat>)
    ensures
        forall|i: int| 0 <= i < list.len() ==> member(sorted_insert(list, token), #[trigger] list[i]),
        any_same(sorted_insert(list, token), token),
    decreases list.len(),
{
    let out = sorted_insert(list, token);
    lemma_same_version_equivalence(token, token, token);
    if list.len() == 0 {
        assert(same_version(out[0], token));
    } else if precedes(token, list[0]) {
        assert(same_version(out[0], token));
        assert forall|i: int| 0 <= i < list.len() implies member(out, #[trigger] list[i]) by {
            assert(out[i + 1] == list[i]);
        }
    } else if same_version(token, list[0]) {
        assert(same_version(out[0], token));
        assert forall|i: int| 0 <= i < list.len() implies member(out, #[trigger] list[i]) by {
            assert(out[i] == list[i]);
        }
    } else {
        let rest = list.drop_first();
        let tail = sorted_insert(rest, token);
        lemma_sorted_insert_keeps(rest, token);
        let j = choose|j: int| 0 <= j < tail.len() && same_version(#[trigger] tail[j], token);
        assert(same_version(out[j + 1], token));
        assert forall|i: int| 0 <= i < list.len() implies member(out, #[trigger] list[i]) by {
            if i == 0 {
                assert(out[0] == list[0]);
            } else {
                assert(rest[i - 1] == list[i]);
                let m = choose|m: int| 0 <= m < tail.len() && #[trigger] tail[m] == rest[i - 1];
                assert(out[m + 1] == list[i]);
            }
        }
    }
}

/// An ascending list that holds the token's version is left as it is.
pub proof fn lemma_sorted_insert_present(list: Seq<Seq<nat>>, token: Seq<nat>)
    requires
        ascending(list),
        any_same(list, token),
    ensures
        sorted_insert(list, token) == list,
    decreases list.len(),
{
    let j = choose|j: int| 0 <= j < list.len() && same_version(#[trigger] list[j], token);
    lemma_order_total(token, list[0]);
    lemma_same_version_equivalence(list[j], token, token);
    if !same_version(token, list[0]) {
        assert(j > 0);
        assert(precedes(list[0], list[j]));
        lemma_precedes_respects_same(list[j], token, list[0]);
        let rest = list.drop_first();
        assert forall|a: int, b: int| 0 <= a < b < rest.len() implies precedes(
            #[trigger] rest[a],
            #[trigger] rest[b],
        ) by {
            assert(precedes(list[a + 1], list[b + 1]));
        }
        assert(same_version(rest[j - 1], token));
        lemma_sorted_insert_present(rest, token);
        assert(seq![list[0]] + rest == list);
    }
}

/// The canonical list holds the version of every token.
pub proof fn lemma_canonical_covers(tokens: Seq<Seq<nat>>)
    ensures
        forall|i: int| 0 <= i < tokens.len() ==> any_same(canonical(tokens), #[trigger] tokens[i]),
    decreases tokens.len(),
{
    if tokens.len() > 0 {
        let head = tokens.drop_last();
        let before = canonical(head);
        let out = canonical(tokens);
        lemma_canonical_covers(head);
        lemma_sorted_insert_keeps(before, tokens.last());
        assert forall|i: int| 0 <= i < tokens.len() implies any_same(out, #[trigger] tokens[i]) by {
            if i < head.len() {
                assert(head[i] == tokens[i]);
                let j = choose|j: int|
                    0 <= j < before.len() && same_version(#[trigger] before[j], head[i]);
                let m = choose|m: int| 0 <= m < out.len() && #[trigger] out[m] == before[j];
                assert(same_version(out[m], tokens[i]));
            }
        }
    }
}

/// Every entry of the canonical list is the first token of its version.
pub proof fn lemma_canonical_firsts(tokens: Seq<Seq<nat>>)
    ensures
        forall|j: int|
            0 <= j < canonical(tokens).len() ==> is_first_of_version(
                tokens,
                #[trigger] canonical(tokens)[j],
            ),
    decreases tokens.len(),
{
    if tokens.len() > 0 {
        let head = tokens.drop_last();
        let last = tokens.last();
        let before = canonical(head);
        let out = canonical(tokens);
        lemma_canonical_firsts(head);
        lemma_canonical_ascending(head);
        lemma_canonical_covers(head);
        lemma_sorted_insert_members(before, last);
        if any_same(before, last) {
            lemma_sorted_insert_present(before, last);
        }
        assert forall|j: int| 0 <= j < out.len() implies is_first_of_version(
            tokens,
            #[trigger] out[j],
        ) by {
            let entry = out[j];
            if member(before, entry) {
                let m = choose|m: int| 0 <= m < before.len() && #[trigger] before[m] == entry;
                let i = choose|i: int|
                    0 <= i < head.len() && #[trigger] head[i] == entry && first_of_version(
                        head,
                        i,
                    );
                assert(tokens[i] == entry);
                assert forall|k: int| 0 <= k < i implies !same_version(
                    #[trigger] tokens[k],
                    tokens[i],
                ) by {
                    assert(head[k] == tokens[k]);
                }
            } else {
                assert(entry == last);
                assert(!any_same(before, last));
                let i = tokens.len() - 1;
                assert(tokens[i] == entry);
                assert forall|k: int| 0 <= k < i implies !same_version(
                    #[trigger] tokens[k],
                    tokens[i],
                ) by {
                    assert(head[k] == tokens[k]);
                    if same_version(tokens[k], last) {
                        let m = choose|m: int|
                            0 <= m < before.len() && same_version(#[trigger] before[m], head[k]);
                        lemma_same_version_equivalence(before[m], head[k], last);
                    }
                }
            }
        }
    }
}

/// What the canonical list is: it is in ascending order, so that no
/// version occurs twice; it holds the version of every token; and each of
/// its entries is the first token of that version.
pub proof fn lemma_canonical_characterized(tokens: Seq<Seq<nat>>)
    ensures
        ascending(canonical(tokens)),
        forall|i: int| 0 <= i < tokens.len() ==> any_same(canonical(tokens), #[trigger] tokens[i]),
        forall|j: int|
            0 <= j < canonical(tokens).len() ==> is_first_of_version(
                tokens,
                #[trigger] canonical(tokens)[j],
            ),
{
    lemma_canonical_ascending(tokens);
    lemma_canonical_covers(tokens);
    lemma_canonical_firsts(tokens);
}

/// Adding a version that an ascending list holds already changes nothing.
pub proof fn lemma_add_present(list: Seq<Seq<nat>>, token: Seq<nat>)
    requires
        ascending(list),
        any_same(list, token),
    ensures
        canonical(list.push(token)) == list,
        encode_text(list.push(token)) == encode_text(list),
{
    assert(list.push(token).drop_last() == list);
    lemma_canonical_of_ascending(list);
    lemma_sorted_insert_present(list, token);
}

/// The text form of a version starts and ends with a digit and holds
/// digits and dots only.
pub proof fn lemma_version_text_shape(v: Seq<nat>)
    requires
        valid_version(v),
    ensures
        version_text(v).len() > 0,
        is_digit(version_text(v)[0]),
        is_digit(version_text(v).last()),
        free_of(version_text(v), ','),
        forall|i: int| 0 <= i < version_text(v).len() ==> !is_space(#[trigger] version_text(v)[i]),
    decreases v.len(),
{
    let texts = segment_texts(v);
    lemma_decimal_text(v.last());
    lemma_digits_plain(texts.last());
    if v.len() > 1 {
        let head = v.drop_last();
        assert(segment_texts(head) == texts.drop_last());
        lemma_version_text_shape(head);
        let joined = version_text(head);
        let whole = version_text(v);
        assert(whole == joined + seq!['.'] + texts.last());
        assert(whole[0] == joined[0]);
        assert forall|i: int| 0 <= i < whole.len() implies whole[i] != ',' && !is_space(
            #[trigger] whole[i],
        ) by {
            if i < joined.len() {
                assert(whole[i] == joined[i]);
            } else if i == joined.len() {
                assert(whole[i] == '.');
            } else {
                assert(whole[i] == texts.last()[i - joined.len() - 1]);
            }
        }
    }
}

/// The pieces that the written field falls into at its commas.
pub open spec fn written_pieces(tokens: Seq<Seq<nat>>) -> Seq<Seq<char>> {
    Seq::new(
        tokens.len(),
        |i: int|
            if i == 0 {
                version_text(tokens[0])
            } else {
                seq![' '] + version_text(tokens[i])
            },
    )
}

/// Splitting the joined text forms at the commas gives the text forms back,
/// all but the first with a blank in front.
pub proof fn lemma_split_written(tokens: Seq<Seq<nat>>)
    requires
        tokens.len() >= 1,
        forall|i: int| 0 <= i < tokens.len() ==> valid_version(#[trigger] tokens[i]),
    ensures
        split(join(version_texts(tokens), seq![',', ' ']), ',') == written_pieces(tokens),
    decreases tokens.len(),
{
    let texts = version_texts(tokens);
    lemma_version_text_shape(tokens.last());
    if tokens.len() == 1 {
        lemma_split_free(texts[0], ',');
        assert(seq![texts[0]] == written_pieces(tokens));
    } else {
        let head = tokens.drop_last();
        assert forall|i: int| 0 <= i < head.len() implies valid_version(#[trigger] head[i]) by {
            assert(head[i] == tokens[i]);
        }
        lemma_split_written(head);
        assert(version_texts(head) == texts.drop_last());
        let joined = join(version_texts(head), seq![',', ' ']);
        let piece = seq![' '] + texts.last();
        assert(join(texts, seq![',', ' ']) == joined.push(',') + piece);
        assert forall|i: int| 0 <= i < piece.len() implies piece[i] != ',' by {
            if i > 0 {
                assert(piece[i] == texts.last()[i - 1]);
            }
        }
        lemma_split_append_piece(joined, piece, ',');
        assert(written_pieces(head).push(piece) == written_pieces(tokens));
    }
}

/// Reading the pieces of a written field gives the tokens back.
pub proof fn lemma_read_written(tokens: Seq<Seq<nat>>)
    requires
        forall|i: int| 0 <= i < tokens.len() ==> valid_version(#[trigger] tokens[i]),
    ensures
        read_pieces(written_pieces(tokens)) == tokens,
    decreases tokens.len(),
{
    if tokens.len() == 0 {
        assert(tokens == Seq::<Seq<nat>>::empty());
    } else {
        let head = tokens.drop_last();
        assert forall|i: int| 0 <= i < head.len() implies valid_version(#[trigger] head[i]) by {
            assert(head[i] == tokens[i]);
        }
        lemma_read_written(head);
        assert(written_pieces(tokens).drop_last() == written_pieces(head));
        let text = version_text(tokens.last());
        lemma_version_text_shape(tokens.last());
        assert(!is_space(text[0]) && !is_space(text.last()));
        if tokens.len() == 1 {
            lemma_trim_tight(text);
        } else {
            lemma_trim_leading(seq![' '], text);
        }
        lemma_parse_version_text(tokens.last());
        assert(head.push(tokens.last()) == tokens);
    }
}

/// The joined text forms carry no white space at either end.
pub proof fn lemma_written_tight(tokens: Seq<Seq<nat>>)
    requires
        forall|i: int| 0 <= i < tokens.len() ==> valid_version(#[trigger] tokens[i]),
    ensures
        trim(join(version_texts(tokens), seq![',', ' '])) == join(
            version_texts(tokens),
            seq![',', ' '],
        ),
        tokens.len() > 0 ==> join(version_texts(tokens), seq![',', ' ']).len() > 0 && is_digit(
            join(version_texts(tokens), seq![',', ' '])[0],
        ),
    decreases tokens.len(),
{
    let texts = version_texts(tokens);
    let whole = join(texts, seq![',', ' ']);
    if tokens.len() > 0 {
        lemma_version_text_shape(tokens.last());
        if tokens.len() > 1 {
            let head = tokens.drop_last();
            assert forall|i: int| 0 <= i < head.len() implies valid_version(#[trigger] head[i]) by {
                assert(head[i] == tokens[i]);
            }
            lemma_written_tight(head);
            assert(version_texts(head) == texts.drop_last());
            let joined = join(version_texts(head), seq![',', ' ']);
            assert(whole == joined + seq![',', ' '] + texts.last());
            assert(whole[0] == joined[0]);
            assert(whole.last() == texts.last().last());
        }
        assert(!is_space(whole[0]) && !is_space(whole.last()));
    }
    lemma_trim_tight(whole);
}

/// Reading what was written gives the tokens put in ascending order, one of
/// each version.
pub proof fn lemma_decode_encode(tokens: Seq<Seq<nat>>)
    requires
        forall|i: int| 0 <= i < tokens.len() ==> valid_version(#[trigger] tokens[i]),
    ensures
        decode_text(encode_text(tokens)) == canonical(tokens),
{
    let list = canonical(tokens);
    lemma_canonical_members(tokens);
    assert forall|j: int| 0 <= j < list.len() implies valid_version(#[trigger] list[j]) by {
        let i = choose|i: int| 0 <= i < tokens.len() && #[trigger] tokens[i] == list[j];
    }
    lemma_written_tight(list);
    lemma_read_written(list);
    if list.len() == 0 {
        let none = Seq::<char>::empty();
        assert(encode_text(tokens) == none);
        assert(split(none, ',') == seq![none]);
        assert(seq![none].drop_last() == Seq::<Seq<char>>::empty());
        assert(split(none, '.') == seq![none]);
        assert(trim(none) == none);
        assert(parse_version(none) is None);
        assert(seq![none].last() == none);
        assert(read_pieces(Seq::<Seq<char>>::empty()) == Seq::<Seq<nat>>::empty());
        assert(read_pieces(seq![none]) == Seq::<Seq<nat>>::empty());
        assert(list == Seq::<Seq<nat>>::empty());
    } else {
        lemma_split_written(list);
        assert(trim(encode_text(tokens)) == encode_text(tokens));
        assert(split(encode_text(tokens), ',') == written_pieces(list));
    }
}

/// Writing a field that was read from written text changes nothing: the
/// written form is stable.
pub proof fn lemma_encode_decode_encode(tokens: Seq<Seq<nat>>)
    requires
        forall|i: int| 0 <= i < tokens.len() ==> valid_version(#[trigger] tokens[i]),
    ensures
        encode_text(decode_text(encode_text(tokens))) == encode_text(tokens),
{
    lemma_decode_encode(tokens);
    lemma_canonical_idempotent(tokens);
}

/// Puts `token` into an ascending list at its place, unless the list holds
/// that version already.
pub fn insert_sorted(list: &mut Vec<VersionToken>, token: VersionToken)
    ensures
        views(final(list)@) == sorted_insert(views(old(list)@), token@),
{
    let ghost before = views(list@);
    let mut i: usize = 0;
    assert(before.skip(0) == before);
    assert(before.take(0) + sorted_insert(before, token@) == sorted_insert(before, token@));
    while i < list.len()
        invariant
            i <= list.len(),
            list@ == old(list)@,
            before == views(list@),
            sorted_insert(before, token@) == before.take(i as int) + sorted_insert(
                before.skip(i as int),
                token@,
            ),
        decreases list.len() - i,
    {
        let ghost rest = before.skip(i as int);
        assert(rest[0] == list@[i as int]@);
        match token.compare(&list[i]) {
            VersionOrder::Before => {
                list.insert(i, token);
                assert(views(list@) == before.take(i as int) + (seq![token@] + rest));
                return ;
            },
            VersionOrder::Same => {
                assert(before.take(i as int) + rest == before);
                return ;
            },
            VersionOrder::After => {
                proof {
                    lemma_order_total(token@, rest[0]);
                    assert(rest.drop_first() == before.skip(i as int + 1));
                    assert(before.take(i as int) + (seq![rest[0]] + sorted_insert(
                        rest.drop_first(),
                        token@,
                    )) == before.take(i as int + 1) + sorted_insert(
                        before.skip(i as int + 1),
                        token@,
                    ));
                }
            },
        }
        i += 1;
    }
    assert(before.skip(i as int) == Seq::<Seq<nat>>::empty());
    assert(before.take(i as int) == before);
    list.push(token);
    assert(views(list@) == before + seq![token@]);
}

/// The tokens in ascending order, one of each version.
pub fn canonicalize(tokens: &Vec<VersionToken>) -> (r: Vec<VersionToken>)
    ensures
        views(r@) == canonical(views(tokens@)),
        ascending(views(r@)),
{
    let mut out: Vec<VersionToken> = Vec::new();
    let mut k: usize = 0;
    assert(views(tokens@).take(0) == Seq::<Seq<nat>>::empty());
    assert(views(out@) == Seq::<Seq<nat>>::empty());
    while k < tokens.len()
        invariant
            k <= tokens.len(),
            views(out@) == canonical(views(tokens@).take(k as int)),
        decreases tokens.len() - k,
    {
        let token = tokens[k].clone();
        insert_sorted(&mut out, token);
        proof {
            let now = views(tokens@).take(k as int + 1);
            assert(now.drop_last() == views(tokens@).take(k as int));
            assert(now.last() == tokens@[k as int]@);
        }
        k += 1;
    }
    proof {
        assert(views(tokens@).take(k as int) == views(tokens@));
        lemma_canonical_ascending(views(tokens@));
    }
    out
}

/// The field text for `tokens`: ascending, one of each version, joined by
/// `", "`. No tokens give the empty text.
pub fn encode(tokens: &Vec<VersionToken>) -> (r: String)
    ensures
        r@ == encode_text(views(tokens@)),
{
    let list = canonicalize(tokens);
    let ghost texts = version_texts(views(list@));
    let mut out = String::new();
    let mut i: usize = 0;
    assert(texts.take(0) == Seq::<Seq<char>>::empty());
    while i < list.len()
        invariant
            i <= list.len(),
            texts == version_texts(views(list@)),
            out@ == join(texts.take(i as int), seq![',', ' ']),
        decreases list.len() - i,
    {
        if i > 0 {
            out.push(',');
            out.push(' ');
        }
        let text = list[i].to_string();
        let chars = chars_of(text.as_str());
        crate::text::push_chars(&mut out, &chars, 0, chars.len());
        proof {
            let now = texts.take(i as int + 1);
            assert(now.drop_last() == texts.take(i as int));
            assert(now.last() == version_text(list@[i as int]@));
            assert(chars@.subrange(0, chars@.len() as int) == chars@);
            if i > 0 {
                assert(join(texts.take(i as int), seq![',', ' ']).push(',').push(' ') == join(
                    texts.take(i as int),
                    seq![',', ' '],
                ) + seq![',', ' ']);
            } else {
                assert(Seq::<char>::empty() + chars@ == chars@);
            }
        }
        i += 1;
    }
    assert(texts.take(i as int) == texts);
    out
}

/// The tokens that the field text holds, in the order in which they stand.
/// White space around the text and around commas is skipped; a piece that
/// is no version is left out. Every text can be read.
pub fn decode(text: &str) -> (r: Vec<VersionToken>)
    ensures
        views(r@) == decode_text(text@),
        forall|i: int| 0 <= i < r@.len() ==> valid_version(#[trigger] r@[i]@),
{
    let chars = chars_of(text);
    let (a, b) = trim_range(&chars, 0, chars.len());
    assert(chars@.subrange(0, chars@.len() as int) == text@);
    let ranges = split_ranges(&chars, a, b, ',');
    let ghost pieces = split(trim(text@), ',');
    let mut out: Vec<VersionToken> = Vec::new();
    let mut k: usize = 0;
    assert(pieces.take(0) == Seq::<Seq<char>>::empty());
    assert(views(out@) == Seq::<Seq<nat>>::empty());
    while k < ranges.len()
        invariant
            k <= ranges.len(),
            b <= chars.len(),
            ranges@.len() == pieces.len(),
            forall|j: int|
                0 <= j < ranges@.len() ==> a <= (#[trigger] ranges@[j]).0 <= ranges@[j].1 <= b
                    && chars@.subrange(ranges@[j].0 as int, ranges@[j].1 as int) == pieces[j],
            views(out@) == read_pieces(pieces.take(k as int)),
            forall|i: int| 0 <= i < out@.len() ==> valid_version(#[trigger] out@[i]@),
        decreases ranges.len() - k,
    {
        let (from, to) = ranges[k];
        assert(chars@.subrange(ranges@[k as int].0 as int, ranges@[k as int].1 as int)
            == pieces[k as int]);
        let (x, y) = trim_range(&chars, from, to);
        let ghost before = views(out@);
        proof {
            assert(pieces.take(k as int + 1).drop_last() == pieces.take(k as int));
            assert(pieces.take(k as int + 1).last() == pieces[k as int]);
        }
        match VersionToken::parse_range(&chars, x, y) {
            Some(token) => {
                out.push(token);
                assert(views(out@) == before.push(token@));
            },
            None => {},
        }
        k += 1;
    }
    assert(pieces.take(k as int) == pieces);
    out
}

} // verus!
