//! Version tokens: dotted sequences of decimal segments such as `7.7.7`,
//! their text form and their order.

use crate::text::{
    chars_of, free_of, is_space, join, lemma_split_join, lemma_split_nonempty, split,
    split_ranges,
};
use vstd::prelude::*;

verus! {

/// A decimal digit.
pub open spec fn is_digit(c: char) -> bool {
    '0' <= c <= '9'
}

/// The digit that stands for `d`, for `d` below ten.
pub open spec fn digit_char(d: nat) -> char {
    if d == 0 {
        '0'
    } else if d == 1 {
        '1'
    } else if d == 2 {
        '2'
    } else if d == 3 {
        '3'
    } else if d == 4 {
        '4'
    } else if d == 5 {
        '5'
    } else if d == 6 {
        '6'
    } else if d == 7 {
        '7'
    } else if d == 8 {
        '8'
    } else {
        '9'
    }
}

/// The number that the digit `c` stands for.
pub open spec fn digit_value(c: char) -> nat {
    (c as u32 - '0' as u32) as nat
}

/// Every character of `s` is a decimal digit.
pub open spec fn all_digits(s: Seq<char>) -> bool {
    forall|i: int| 0 <= i < s.len() ==> is_digit(#[trigger] s[i])
}

/// The number that a run of digits denotes in base ten.
pub open spec fn decimal_value(s: Seq<char>) -> nat
    decreases s.len(),
{
    if s.len() == 0 {
        0
    } else {
        decimal_value(s.drop_last()) * 10 + digit_value(s.last())
    }
}

/// `n` in base ten, without leading zeros.
pub open spec fn decimal_text(n: nat) -> Seq<char>
    decreases n,
{
    if n < 10 {
        seq![digit_char(n)]
    } else {
        decimal_text(n / 10).push(digit_char(n % 10))
    }
}

/// One segment of a version: a non-empty run of digits whose value fits in
/// 32 bits. Anything else is no segment.
pub open spec fn parse_segment(s: Seq<char>) -> Option<nat> {
    if s.len() > 0 && all_digits(s) && decimal_value(s) <= u32::MAX {
        Some(decimal_value(s))
    } else {
        None
    }
}

/// The segments that the pieces denote, if each piece is a segment.
pub open spec fn parse_segments(pieces: Seq<Seq<char>>) -> Option<Seq<nat>>
    decreases pieces.len(),
{
    if pieces.len() == 0 {
        Some(Seq::<nat>::empty())
    } else {
        match (parse_segments(pieces.drop_last()), parse_segment(pieces.last())) {
            (Some(head), Some(n)) => Some(head.push(n)),
            _ => None,
        }
    }
}

/// The version that `s` denotes: its pieces between dots, each a segment.
/// Text with anything else in it, white space included, denotes no version.
pub open spec fn parse_version(s: Seq<char>) -> Option<Seq<nat>> {
    parse_segments(split(s, '.'))
}

/// The text of each segment.
pub open spec fn segment_texts(v: Seq<nat>) -> Seq<Seq<char>> {
    Seq::new(v.len(), |i: int| decimal_text(v[i]))
}

/// The text form of a version: its segments in base ten with dots between.
pub open spec fn version_text(v: Seq<nat>) -> Seq<char> {
    join(segment_texts(v), seq!['.'])
}

/// What a version token holds: at least one segment, each within 32 bits.
pub open spec fn valid_version(v: Seq<nat>) -> bool {
    &&& v.len() > 0
    &&& forall|i: int| 0 <= i < v.len() ==> #[trigger] v[i] <= u32::MAX
}

/// Segment `i` of `v`, where a version stands for itself followed by zeros.
pub open spec fn segment(v: Seq<nat>, i: int) -> nat {
    if 0 <= i < v.len() {
        v[i]
    } else {
        0
    }
}

/// Two versions are the same when they agree segment by segment, missing
/// trailing segments counting as zero.
pub open spec fn same_version(a: Seq<nat>, b: Seq<nat>) -> bool {
    forall|i: int| 0 <= i ==> segment(a, i) == #[trigger] segment(b, i)
}

/// `a` comes before `b`: at the first segment where they differ, `a` has the
/// smaller one.
pub open spec fn precedes(a: Seq<nat>, b: Seq<nat>) -> bool {
    exists|k: int| differ_first_at(a, b, k) && segment(a, k) < segment(b, k)
}

/// `a` and `b` agree before segment `k` and differ there.
pub open spec fn differ_first_at(a: Seq<nat>, b: Seq<nat>, k: int) -> bool {
    &&& 0 <= k
    &&& segment(a, k) != segment(b, k)
    &&& forall|i: int| 0 <= i < k ==> segment(a, i) == #[trigger] segment(b, i)
}

/// The segment at which two versions that are not the same first differ.
pub proof fn lemma_first_difference(a: Seq<nat>, b: Seq<nat>) -> (k: int)
    requires
        !same_version(a, b),
    ensures
        differ_first_at(a, b, k),
{
    let j = choose|j: int| 0 <= j && segment(a, j) != #[trigger] segment(b, j);
    lemma_first_difference_below(a, b, j)
}

proof fn lemma_first_difference_below(a: Seq<nat>, b: Seq<nat>, j: int) -> (k: int)
    requires
        0 <= j,
        segment(a, j) != segment(b, j),
    ensures
        differ_first_at(a, b, k),
        k <= j,
    decreases j,
{
    if forall|i: int| 0 <= i < j ==> segment(a, i) == #[trigger] segment(b, i) {
        j
    } else {
        let i = choose|i: int| 0 <= i < j && segment(a, i) != #[trigger] segment(b, i);
        lemma_first_difference_below(a, b, i)
    }
}

/// Two versions differ first at one place only.
pub proof fn lemma_first_difference_unique(a: Seq<nat>, b: Seq<nat>, k: int, m: int)
    requires
        differ_first_at(a, b, k),
        differ_first_at(a, b, m),
    ensures
        k == m,
{
    if k < m {
        assert(segment(a, k) == segment(b, k));
    } else if m < k {
        assert(segment(a, m) == segment(b, m));
    }
}

/// Of two versions exactly one holds: the first comes before the second,
/// they are the same, or the second comes before the first.
pub proof fn lemma_order_total(a: Seq<nat>, b: Seq<nat>)
    ensures
        precedes(a, b) || same_version(a, b) || precedes(b, a),
        !(precedes(a, b) && same_version(a, b)),
        !(precedes(b, a) && same_version(a, b)),
        !(precedes(a, b) && precedes(b, a)),
{
    if !same_version(a, b) {
        let k = lemma_first_difference(a, b);
        assert(differ_first_at(b, a, k));
    }
    if precedes(a, b) {
        let k = choose|k: int| differ_first_at(a, b, k) && segment(a, k) < segment(b, k);
        if same_version(a, b) {
            assert(segment(a, k) == segment(b, k));
        }
        if precedes(b, a) {
            let m = choose|m: int| differ_first_at(b, a, m) && segment(b, m) < segment(a, m);
            assert(differ_first_at(a, b, m));
            lemma_first_difference_unique(a, b, k, m);
        }
    }
    if precedes(b, a) && same_version(a, b) {
        let m = choose|m: int| differ_first_at(b, a, m) && segment(b, m) < segment(a, m);
        assert(segment(a, m) == segment(b, m));
    }
}

/// Being the same is reflexive, symmetric and transitive.
pub proof fn lemma_same_version_equivalence(a: Seq<nat>, b: Seq<nat>, c: Seq<nat>)
    ensures
        same_version(a, a),
        same_version(a, b) ==> same_version(b, a),
        same_version(a, b) && same_version(b, c) ==> same_version(a, c),
{
    if same_version(a, b) {
        assert forall|i: int| 0 <= i implies segment(b, i) == #[trigger] segment(a, i) by {
            assert(segment(a, i) == segment(b, i));
        }
        if same_version(b, c) {
            assert forall|i: int| 0 <= i implies segment(a, i) == #[trigger] segment(c, i) by {
                assert(segment(a, i) == segment(b, i));
                assert(segment(b, i) == segment(c, i));
            }
        }
    }
}

/// The order is transitive.
pub proof fn lemma_precedes_transitive(a: Seq<nat>, b: Seq<nat>, c: Seq<nat>)
    requires
        precedes(a, b),
        precedes(b, c),
    ensures
        precedes(a, c),
{
    let k = choose|k: int| differ_first_at(a, b, k) && segment(a, k) < segment(b, k);
    let m = choose|m: int| differ_first_at(b, c, m) && segment(b, m) < segment(c, m);
    let n = if k <= m {
        k
    } else {
        m
    };
    assert forall|i: int| 0 <= i < n implies segment(a, i) == #[trigger] segment(c, i) by {
        assert(segment(a, i) == segment(b, i));
        assert(segment(b, i) == segment(c, i));
    }
    if k < m {
        assert(segment(b, k) == segment(c, k));
    } else if m < k {
        assert(segment(a, m) == segment(b, m));
    }
    assert(differ_first_at(a, c, n) && segment(a, n) < segment(c, n));
}

/// The order does not tell versions that are the same apart.
pub proof fn lemma_precedes_respects_same(a: Seq<nat>, b: Seq<nat>, c: Seq<nat>)
    requires
        same_version(a, b),
    ensures
        precedes(a, c) == precedes(b, c),
        precedes(c, a) == precedes(c, b),
        same_version(a, c) == same_version(b, c),
{
    lemma_same_version_equivalence(a, b, c);
    lemma_same_version_equivalence(b, a, c);
    assert forall|k: int| differ_first_at(a, c, k) == differ_first_at(b, c, k) by {
        assert(forall|i: int| 0 <= i ==> segment(a, i) == #[trigger] segment(b, i));
        assert(forall|i: int| 0 <= i ==> segment(b, i) == #[trigger] segment(a, i));
        assert(segment(a, k) == segment(b, k) || k < 0);
        if differ_first_at(a, c, k) {
            assert forall|i: int| 0 <= i < k implies segment(b, i) == #[trigger] segment(c, i) by {
                assert(segment(b, i) == segment(a, i));
                assert(segment(a, i) == segment(c, i));
            }
        }
        if differ_first_at(b, c, k) {
            assert forall|i: int| 0 <= i < k implies segment(a, i) == #[trigger] segment(c, i) by {
                assert(segment(a, i) == segment(b, i));
                assert(segment(b, i) == segment(c, i));
            }
        }
    }
    assert forall|k: int| differ_first_at(c, a, k) == differ_first_at(c, b, k) by {
        assert(segment(a, k) == segment(b, k) || k < 0);
        if differ_first_at(c, a, k) {
            assert forall|i: int| 0 <= i < k implies segment(c, i) == #[trigger] segment(b, i) by {
                assert(segment(c, i) == segment(a, i));
                assert(segment(a, i) == segment(b, i));
            }
        }
        if differ_first_at(c, b, k) {
            assert forall|i: int| 0 <= i < k implies segment(c, i) == #[trigger] segment(a, i) by {
                assert(segment(c, i) == segment(b, i));
                assert(segment(b, i) == segment(a, i));
            }
        }
    }
    if precedes(a, c) {
        let k = choose|k: int| differ_first_at(a, c, k) && segment(a, k) < segment(c, k);
        assert(differ_first_at(b, c, k) && segment(b, k) < segment(c, k));
    }
    if precedes(b, c) {
        let k = choose|k: int| differ_first_at(b, c, k) && segment(b, k) < segment(c, k);
        assert(differ_first_at(a, c, k) && segment(a, k) < segment(c, k));
    }
    if precedes(c, a) {
        let k = choose|k: int| differ_first_at(c, a, k) && segment(c, k) < segment(a, k);
        assert(differ_first_at(c, b, k) && segment(c, k) < segment(b, k));
    }
    if precedes(c, b) {
        let k = choose|k: int| differ_first_at(c, b, k) && segment(c, k) < segment(b, k);
        assert(differ_first_at(c, a, k) && segment(c, k) < segment(a, k));
    }
}

/// The text of a number is a non-empty run of digits that denotes it.
pub proof fn lemma_decimal_text(n: nat)
    ensures
        decimal_text(n).len() > 0,
        all_digits(decimal_text(n)),
        decimal_value(decimal_text(n)) == n,
    decreases n,
{
    if n < 10 {
        let t = decimal_text(n);
        assert(t.drop_last() == Seq::<char>::empty());
        assert(decimal_value(t.drop_last()) == 0);
    } else {
        lemma_decimal_text(n / 10);
        let t = decimal_text(n);
        assert(t.drop_last() == decimal_text(n / 10));
        assert(digit_value(digit_char(n % 10)) == n % 10);
    }
}

/// Digits are neither separators nor white space.
pub proof fn lemma_digits_plain(s: Seq<char>)
    requires
        all_digits(s),
    ensures
        free_of(s, '.'),
        free_of(s, ','),
        forall|i: int| 0 <= i < s.len() ==> !is_space(#[trigger] s[i]),
{
    assert forall|i: int| 0 <= i < s.len() implies s[i] != '.' && s[i] != ',' && !is_space(
        #[trigger] s[i],
    ) by {
        assert(is_digit(s[i]));
    }
}

/// Reading the text of each segment gives the segments back.
pub proof fn lemma_parse_segment_texts(v: Seq<nat>)
    requires
        forall|i: int| 0 <= i < v.len() ==> #[trigger] v[i] <= u32::MAX,
    ensures
        parse_segments(segment_texts(v)) == Some(v),
    decreases v.len(),
{
    if v.len() == 0 {
        assert(v == Seq::<nat>::empty());
    } else {
        let head = v.drop_last();
        lemma_parse_segment_texts(head);
        assert(segment_texts(v).drop_last() == segment_texts(head));
        lemma_decimal_text(v.last());
        assert(head.push(v.last()) == v);
    }
}

/// Reading the text form of a version gives the version back.
pub proof fn lemma_parse_version_text(v: Seq<nat>)
    requires
        valid_version(v),
    ensures
        parse_version(version_text(v)) == Some(v),
{
    let texts = segment_texts(v);
    assert forall|i: int| 0 <= i < texts.len() implies free_of(#[trigger] texts[i], '.') by {
        lemma_decimal_text(v[i]);
        lemma_digits_plain(texts[i]);
    }
    lemma_split_join(texts, '.');
    lemma_parse_segment_texts(v);
}

/// What reading gives is a version token.
pub proof fn lemma_parse_segments_valid(pieces: Seq<Seq<char>>)
    requires
        parse_segments(pieces) is Some,
    ensures
        parse_segments(pieces)->0.len() == pieces.len(),
        forall|i: int|
            0 <= i < pieces.len() ==> parse_segment(#[trigger] pieces[i]) == Some(
                parse_segments(pieces)->0[i],
            ),
    decreases pieces.len(),
{
    if pieces.len() > 0 {
        let head = pieces.drop_last();
        lemma_parse_segments_valid(head);
        assert forall|i: int| 0 <= i < pieces.len() implies parse_segment(#[trigger] pieces[i])
            == Some(parse_segments(pieces)->0[i]) by {
            if i < head.len() {
                assert(pieces[i] == head[i]);
            }
        }
    }
}

/// If one piece is no segment, the pieces denote no version.
pub proof fn lemma_parse_segments_fails(pieces: Seq<Seq<char>>, k: int)
    requires
        0 <= k < pieces.len(),
        parse_segment(pieces[k]) is None,
    ensures
        parse_segments(pieces) is None,
    decreases pieces.len(),
{
    if k < pieces.len() - 1 {
        assert(pieces.drop_last()[k] == pieces[k]);
        lemma_parse_segments_fails(pieces.drop_last(), k);
    }
}

/// How two versions stand to each other.
#[derive(Clone, Copy, Debug, PartialEq, Eq, Structural)]
pub enum VersionOrder {
    /// The first comes before the second.
    Before,
    /// They are the same version.
    Same,
    /// The first comes after the second.
    After,
}

/// A parsed version: one or more segments, each a number within 32 bits.
#[derive(Debug)]
pub struct VersionToken {
    parts: Vec<u32>,
}

impl View for VersionToken {
    type V = Seq<nat>;

    closed spec fn view(&self) -> Seq<nat> {
        Seq::new(self.parts@.len(), |i: int| self.parts@[i] as nat)
    }
}

impl Clone for VersionToken {
    fn clone(&self) -> (r: Self)
        ensures
            r@ == self@,
    {
        proof {
            use_type_invariant(self);
        }
        let mut parts: Vec<u32> = Vec::new();
        let mut i: usize = 0;
        while i < self.parts.len()
            invariant
                i <= self.parts.len(),
                parts@ == self.parts@.take(i as int),
            decreases self.parts.len() - i,
        {
            parts.push(self.parts[i]);
            i += 1;
            assert(self.parts@.take(i as int) == self.parts@.take(i as int - 1).push(
                self.parts@[i as int - 1],
            ));
        }
        assert(parts@ == self.parts@);
        VersionToken { parts }
    }
}

impl VersionToken {
    #[verifier::type_invariant]
    closed spec fn inv(&self) -> bool {
        self.parts@.len() > 0
    }

    /// The token that `text` denotes, or `None` where it denotes no version.
    /// The text is read as it stands: white space is not skipped.
    pub fn parse(text: &str) -> (r: Option<VersionToken>)
        ensures
            match r {
                Some(token) => parse_version(text@) == Some(token@) && valid_version(token@),
                None => parse_version(text@) is None,
            },
    {
        let chars = chars_of(text);
        let r = VersionToken::parse_range(&chars, 0, chars.len());
        assert(chars@.subrange(0, chars@.len() as int) == text@);
        r
    }

    /// The token that `chars[from..to]` denotes, or `None`.
    pub(crate) fn parse_range(chars: &Vec<char>, from: usize, to: usize) -> (r: Option<VersionToken>)
        requires
            from <= to <= chars.len(),
        ensures
            match r {
                Some(token) => parse_version(chars@.subrange(from as int, to as int)) == Some(
                    token@,
                ) && valid_version(token@),
                None => parse_version(chars@.subrange(from as int, to as int)) is None,
            },
    {
        let ranges = split_ranges(chars, from, to, '.');
        let ghost pieces = split(chars@.subrange(from as int, to as int), '.');
        proof {
            lemma_split_nonempty(chars@.subrange(from as int, to as int), '.');
        }
        let mut parts: Vec<u32> = Vec::new();
        let mut k: usize = 0;
        while k < ranges.len()
            invariant
                k <= ranges.len(),
                pieces == split(chars@.subrange(from as int, to as int), '.'),
                ranges@.len() == pieces.len(),
                ranges@.len() >= 1,
                forall|j: int|
                    0 <= j < ranges@.len() ==> from <= (#[trigger] ranges@[j]).0 <= ranges@[j].1
                        <= to && chars@.subrange(ranges@[j].0 as int, ranges@[j].1 as int)
                        == pieces[j],
                to <= chars.len(),
                parts@.len() == k,
                parse_segments(pieces.take(k as int)) == Some(
                    Seq::new(parts@.len(), |i: int| parts@[i] as nat),
                ),
            decreases ranges.len() - k,
        {
            let (a, b) = ranges[k];
            assert(chars@.subrange(ranges@[k as int].0 as int, ranges@[k as int].1 as int)
                == pieces[k as int]);
            let ghost before = Seq::new(parts@.len(), |i: int| parts@[i] as nat);
            match parse_segment_range(chars, a, b) {
                Some(n) => {
                    parts.push(n);
                    proof {
                        assert(pieces.take(k as int + 1).drop_last() == pieces.take(k as int));
                        assert(pieces.take(k as int + 1).last() == pieces[k as int]);
                        assert(Seq::new(parts@.len(), |i: int| parts@[i] as nat) == before.push(
                            n as nat,
                        ));
                    }
                },
                None => {
                    proof {
                        lemma_parse_segments_fails(pieces, k as int);
                    }
                    return None;
                },
            }
            k += 1;
        }
        proof {
            assert(pieces.take(k as int) == pieces);
            lemma_parse_segments_valid(pieces);
        }
        let token = VersionToken { parts };
        assert(valid_version(token@));
        Some(token)
    }

    /// The text form: the segments in base ten, joined by dots.
    pub fn to_string(&self) -> (r: String)
        ensures
            r@ == version_text(self@),
    {
        proof {
            use_type_invariant(self);
        }
        let mut out = String::new();
        push_decimal(&mut out, self.parts[0]);
        let mut i: usize = 1;
        assert(segment_texts(self@.take(1)) == seq![decimal_text(self@[0])]);
        while i < self.parts.len()
            invariant
                1 <= i <= self.parts.len(),
                out@ == version_text(self@.take(i as int)),
            decreases self.parts.len() - i,
        {
            out.push('.');
            push_decimal(&mut out, self.parts[i]);
            proof {
                let now = self@.take(i as int + 1);
                assert(segment_texts(now).drop_last() == segment_texts(self@.take(i as int)));
                assert(segment_texts(now).last() == decimal_text(self@[i as int]));
                assert(out@ == version_text(self@.take(i as int)) + seq!['.'] + decimal_text(
                    self@[i as int],
                ));
            }
            i += 1;
        }
        assert(self@.take(i as int) == self@);
        out
    }

    /// The segments, in order.
    pub fn segments(&self) -> (r: Vec<u32>)
        ensures
            r@.len() == self@.len(),
            forall|i: int| 0 <= i < r@.len() ==> #[trigger] r@[i] as nat == self@[i],
            valid_version(self@),
    {
        proof {
            use_type_invariant(self);
        }
        let copy = self.clone();
        copy.parts
    }

    /// How this version stands to `other`.
    pub fn compare(&self, other: &VersionToken) -> (r: VersionOrder)
        ensures
            (r == VersionOrder::Before) == precedes(self@, other@),
            (r == VersionOrder::Same) == same_version(self@, other@),
            (r == VersionOrder::After) == precedes(other@, self@),
    {
        proof {
            lemma_order_total(self@, other@);
        }
        let n = if self.parts.len() >= other.parts.len() {
            self.parts.len()
        } else {
            other.parts.len()
        };
        let mut i: usize = 0;
        while i < n
            invariant
                i <= n,
                n >= self.parts.len(),
                n >= other.parts.len(),
                forall|j: int| 0 <= j < i ==> segment(self@, j) == #[trigger] segment(other@, j),
            decreases n - i,
        {
            let x: u32 = if i < self.parts.len() {
                self.parts[i]
            } else {
                0
            };
            let y: u32 = if i < other.parts.len() {
                other.parts[i]
            } else {
                0
            };
            assert(x == segment(self@, i as int) && y == segment(other@, i as int));
            if x < y {
                assert(differ_first_at(self@, other@, i as int));
                return VersionOrder::Before;
            }
            if y < x {
                assert(differ_first_at(other@, self@, i as int));
                return VersionOrder::After;
            }
            i += 1;
        }
        assert(same_version(self@, other@));
        VersionOrder::Same
    }

    /// Whether the two are the same version.
    pub fn same_as(&self, other: &VersionToken) -> (r: bool)
        ensures
            r == same_version(self@, other@),
    {
        self.compare(other) == VersionOrder::Same
    }
}

/// The segment that `chars[from..to]` denotes, or `None`.
fn parse_segment_range(chars: &Vec<char>, from: usize, to: usize) -> (r: Option<u32>)
    requires
        from <= to <= chars.len(),
    ensures
        match r {
            Some(n) => parse_segment(chars@.subrange(from as int, to as int)) == Some(n as nat),
            None => parse_segment(chars@.subrange(from as int, to as int)) is None,
        },
{
    let ghost whole = chars@.subrange(from as int, to as int);
    if from == to {
        return None;
    }
    let mut value: u64 = 0;
    let mut fits: bool = true;
    let mut i: usize = from;
    assert(chars@.subrange(from as int, from as int) == Seq::<char>::empty());
    while i < to
        invariant
            from <= i <= to <= chars.len(),
            whole == chars@.subrange(from as int, to as int),
            all_digits(chars@.subrange(from as int, i as int)),
            fits ==> value == decimal_value(chars@.subrange(from as int, i as int)),
            fits ==> value <= u32::MAX,
            !fits ==> decimal_value(chars@.subrange(from as int, i as int)) > u32::MAX,
        decreases to - i,
    {
        let c = chars[i];
        let ghost now = chars@.subrange(from as int, i as int + 1);
        proof {
            assert(now.drop_last() == chars@.subrange(from as int, i as int));
            assert(now.last() == c);
        }
        if !('0' <= c && c <= '9') {
            assert(whole[i as int - from as int] == c);
            return None;
        }
        assert(all_digits(now)) by {
            assert forall|j: int| 0 <= j < now.len() implies is_digit(#[trigger] now[j]) by {
                if j < now.len() - 1 {
                    assert(now[j] == now.drop_last()[j]);
                }
            }
        }
        if fits {
            let d: u64 = (c as u32 - '0' as u32) as u64;
            value = value * 10 + d;
            if value > 0xffff_ffff {
                fits = false;
            }
        }
        i += 1;
    }
    assert(chars@.subrange(from as int, i as int) == whole);
    if fits {
        Some(value as u32)
    } else {
        None
    }
}

/// The digit that stands for `d`.
fn digit_of(d: u32) -> (c: char)
    requires
        d < 10,
    ensures
        c == digit_char(d as nat),
{
    if d == 0 {
        '0'
    } else if d == 1 {
        '1'
    } else if d == 2 {
        '2'
    } else if d == 3 {
        '3'
    } else if d == 4 {
        '4'
    } else if d == 5 {
        '5'
    } else if d == 6 {
        '6'
    } else if d == 7 {
        '7'
    } else if d == 8 {
        '8'
    } else {
        '9'
    }
}

/// Appends `n` in base ten to `out`.
fn push_decimal(out: &mut String, n: u32)
    ensures
        final(out)@ == old(out)@ + decimal_text(n as nat),
    decreases n,
{
    if n >= 10 {
        push_decimal(out, n / 10);
    }
    out.push(digit_of(n % 10));
    proof {
        if n >= 10 {
            assert(old(out)@ + decimal_text(n as nat / 10).push(digit_char(n as nat % 10)) == (
            old(out)@ + decimal_text(n as nat / 10)).push(digit_char(n as nat % 10)));
        } else {
            assert(old(out)@ + seq![digit_char(n as nat)] == old(out)@.push(
                digit_char(n as nat),
            ));
        }
    }
}

} // verus!
