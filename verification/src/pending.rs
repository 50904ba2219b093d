//! Pending versions across the issues of a project: what a search result
//! yields, issue by issue, and the removal of versions from a list.

use crate::codec::{any_same, decode, decode_text, views};
use crate::model::{field_text, Issue};
use crate::text::{split, trim};
use crate::version::{parse_version, same_version, VersionToken};
use vstd::prelude::*;

verus! {

/// The pending versions of one issue.
#[derive(Debug)]
pub struct PendingEntry {
    pub key: String,
    pub versions: Vec<VersionToken>,
}

/// The pending versions of the issues that have any, by issue key.
#[derive(Debug)]
pub struct PendingVersions {
    entries: Vec<PendingEntry>,
}

/// Some entry is for `key`.
pub open spec fn has_key(entries: Seq<PendingEntry>, key: Seq<char>) -> bool {
    exists|i: int| 0 <= i < entries.len() && (#[trigger] entries[i]).key@ == key
}

/// The place of an entry for `key`.
pub open spec fn place_of(entries: Seq<PendingEntry>, key: Seq<char>) -> int {
    choose|i: int| 0 <= i < entries.len() && (#[trigger] entries[i]).key@ == key
}

/// No two entries are for the same key.
pub open spec fn distinct_keys(entries: Seq<PendingEntry>) -> bool {
    forall|i: int, j: int|
        0 <= i < j < entries.len() ==> (#[trigger] entries[i]).key@ != (#[trigger] entries[j]).key@
}

/// The mapping that a list of entries with distinct keys stands for.
pub open spec fn entries_map(entries: Seq<PendingEntry>) -> Map<Seq<char>, Seq<Seq<nat>>> {
    Map::new(
        |key: Seq<char>| has_key(entries, key),
        |key: Seq<char>| views(entries[place_of(entries, key)].versions@),
    )
}

/// The text of an optional field value: nothing stands for the empty text.
pub open spec fn text_or_empty(text: Option<Seq<char>>) -> Seq<char> {
    match text {
        Some(t) => t,
        None => Seq::<char>::empty(),
    }
}

/// The pending versions that the issue holds in the field `field_id`.
pub open spec fn pending_of(issue: Issue, field_id: Seq<char>) -> Seq<Seq<nat>> {
    decode_text(text_or_empty(field_text(issue.fields@, field_id)))
}

/// The mapping from issue key to pending versions for the issues found. An
/// issue without a key, or without a single pending version, has no entry.
/// Where two issues carry one key, the later one counts.
pub open spec fn gather(issues: Seq<Issue>, field_id: Seq<char>) -> Map<Seq<char>, Seq<Seq<nat>>>
    decreases issues.len(),
{
    if issues.len() == 0 {
        Map::empty()
    } else {
        let before = gather(issues.drop_last(), field_id);
        let issue = issues.last();
        let list = pending_of(issue, field_id);
        if issue.key@.len() == 0 || list.len() == 0 {
            before
        } else {
            before.insert(issue.key@, list)
        }
    }
}

/// The entries of `list`, in order, that are not the same version as any
/// entry of `removed`.
pub open spec fn without(list: Seq<Seq<nat>>, removed: Seq<Seq<nat>>) -> Seq<Seq<nat>>
    decreases list.len(),
{
    if list.len() == 0 {
        Seq::<Seq<nat>>::empty()
    } else {
        let head = without(list.drop_last(), removed);
        if any_same(removed, list.last()) {
            head
        } else {
            head.push(list.last())
        }
    }
}

/// The empty text holds no version.
pub proof fn lemma_decode_empty()
    ensures
        decode_text(Seq::<char>::empty()) == Seq::<Seq<nat>>::empty(),
{
    let none = Seq::<char>::empty();
    assert(trim(none) == none);
    assert(split(none, ',') == seq![none]);
    assert(split(none, '.') == seq![none]);
    assert(parse_version(none) is None);
    assert(seq![none].drop_last() == Seq::<Seq<char>>::empty());
    assert(seq![none].last() == none);
    assert(crate::codec::read_pieces(Seq::<Seq<char>>::empty()) == Seq::<Seq<nat>>::empty());
}

/// Nothing is left out of a list when nothing is to be removed.
pub proof fn lemma_without_nothing(list: Seq<Seq<nat>>)
    ensures
        without(list, Seq::<Seq<nat>>::empty()) == list,
    decreases list.len(),
{
    if list.len() > 0 {
        lemma_without_nothing(list.drop_last());
        assert(list.drop_last().push(list.last()) == list);
    } else {
        assert(list == Seq::<Seq<nat>>::empty());
    }
}

/// What is left holds none of the removed versions, and holds every entry
/// of the list that is none of them.
pub proof fn lemma_without_members(list: Seq<Seq<nat>>, removed: Seq<Seq<nat>>)
    ensures
        forall|j: int|
            0 <= j < without(list, removed).len() ==> !any_same(
                removed,
                #[trigger] without(list, removed)[j],
            ),
        forall|i: int|
            0 <= i < list.len() && !any_same(removed, #[trigger] list[i]) ==> exists|j: int|
                0 <= j < without(list, removed).len() && without(list, removed)[j] == list[i],
    decreases list.len(),
{
    if list.len() > 0 {
        let head = list.drop_last();
        lemma_without_members(head, removed);
        let out = without(list, removed);
        let before = without(head, removed);
        assert forall|j: int| 0 <= j < out.len() implies !any_same(removed, #[trigger] out[j]) by {
            if j < before.len() {
                assert(out[j] == before[j]);
            }
        }
        assert forall|i: int| 0 <= i < list.len() && !any_same(removed, #[trigger] list[i]) implies exists|
            j: int,
        | 0 <= j < out.len() && out[j] == list[i] by {
            if i < head.len() {
                assert(head[i] == list[i]);
                let j = choose|j: int| 0 <= j < before.len() && before[j] == head[i];
                assert(out[j] == list[i]);
            } else {
                assert(out[out.len() - 1] == list[i]);
            }
        }
    }
}

/// The tokens in the text of a field; a field without text holds none.
pub fn parse_pending_version_field(field: Option<&str>) -> (r: Vec<VersionToken>)
    ensures
        views(r@) == decode_text(
            text_or_empty(
                match field {
                    Some(t) => Some(t@),
                    None => None,
                },
            ),
        ),
{
    match field {
        Some(text) => decode(text),
        None => {
            proof {
                lemma_decode_empty();
            }
            let none: Vec<VersionToken> = Vec::new();
            assert(views(none@) == Seq::<Seq<nat>>::empty());
            none
        },
    }
}

/// Whether some entry of `removed` is the same version as `token`.
pub fn is_removed(removed: &Vec<VersionToken>, token: &VersionToken) -> (r: bool)
    ensures
        r == any_same(views(removed@), token@),
{
    let mut i: usize = 0;
    while i < removed.len()
        invariant
            i <= removed.len(),
            forall|j: int| 0 <= j < i ==> !same_version(#[trigger] views(removed@)[j], token@),
        decreases removed.len() - i,
    {
        if removed[i].same_as(token) {
            assert(same_version(views(removed@)[i as int], token@));
            return true;
        }
        i += 1;
    }
    false
}

/// The tokens of `list`, in order, that are none of the versions in `removed`.
pub fn remove_versions(list: &Vec<VersionToken>, removed: &Vec<VersionToken>) -> (r: Vec<
    VersionToken,
>)
    ensures
        views(r@) == without(views(list@), views(removed@)),
{
    let mut out: Vec<VersionToken> = Vec::new();
    let mut k: usize = 0;
    assert(views(list@).take(0) == Seq::<Seq<nat>>::empty());
    assert(views(out@) == Seq::<Seq<nat>>::empty());
    while k < list.len()
        invariant
            k <= list.len(),
            views(out@) == without(views(list@).take(k as int), views(removed@)),
        decreases list.len() - k,
    {
        let ghost before = views(out@);
        proof {
            let now = views(list@).take(k as int + 1);
            assert(now.drop_last() == views(list@).take(k as int));
            assert(now.last() == list@[k as int]@);
        }
        if !is_removed(removed, &list[k]) {
            out.push(list[k].clone());
            assert(views(out@) == before.push(list@[k as int]@));
        }
        k += 1;
    }
    assert(views(list@).take(k as int) == views(list@));
    out
}

/// Sets the entry for `key`: the entry that is there is replaced, or a new
/// one is added.
fn put_entry(entries: &mut Vec<PendingEntry>, key: String, versions: Vec<VersionToken>)
    requires
        distinct_keys(old(entries)@),
    ensures
        distinct_keys(final(entries)@),
        entries_map(final(entries)@) == entries_map(old(entries)@).insert(key@, views(versions@)),
{
    let ghost before = entries@;
    let ghost wanted = key@;
    let ghost list = views(versions@);
    let mut i: usize = 0;
    while i < entries.len()
        invariant
            i <= entries.len(),
            entries@ == before,
            before == old(entries)@,
            distinct_keys(before),
            key@ == wanted,
            list == views(versions@),
            forall|j: int| 0 <= j < i ==> (#[trigger] before[j]).key@ != wanted,
        decreases entries.len() - i,
    {
        if entries[i].key == key {
            assert(before[i as int].key@ == wanted);
            entries.set(i, PendingEntry { key, versions });
            proof {
                let after = entries@;
                assert(after[i as int].key@ == wanted);
                assert(after[i as int].versions@ == versions@);
                assert forall|a: int| 0 <= a < after.len() implies (#[trigger] after[a]).key@
                    == before[a].key@ by {
                    if a != i {
                        assert(after[a] == before[a]);
                    }
                }
                assert forall|a: int, b: int| 0 <= a < b < after.len() implies (
                #[trigger] after[a]).key@ != (#[trigger] after[b]).key@ by {
                    assert(after[a].key@ == before[a].key@);
                    assert(after[b].key@ == before[b].key@);
                }
                assert forall|k: Seq<char>| has_key(after, k) == has_key(before, k) by {
                    if has_key(after, k) {
                        let p = place_of(after, k);
                        assert(before[p].key@ == k);
                    }
                    if has_key(before, k) {
                        let p = place_of(before, k);
                        assert(after[p].key@ == k);
                    }
                }
                assert(has_key(before, wanted)) by {
                    assert(before[i as int].key@ == wanted);
                }
                assert forall|k: Seq<char>| has_key(after, k) implies #[trigger] entries_map(
                    after,
                )[k] == entries_map(before).insert(wanted, list)[k] by {
                    let p = place_of(after, k);
                    if k == wanted {
                        assert(after[i as int].key@ == wanted);
                        assert(p == i);
                    } else {
                        let q = place_of(before, k);
                        assert(after[q].key@ == k);
                        assert(p == q);
                        assert(after[q] == before[q]);
                    }
                }
                assert(entries_map(after) =~= entries_map(before).insert(wanted, list));
            }
            return ;
        }
        i += 1;
    }
    entries.push(PendingEntry { key, versions });
    proof {
        let after = entries@;
        let last = after.len() - 1;
        assert forall|a: int, b: int| 0 <= a < b < after.len() implies (#[trigger] after[a]).key@
            != (#[trigger] after[b]).key@ by {
            if b < last {
                assert(after[a] == before[a] && after[b] == before[b]);
            } else {
                assert(after[a] == before[a]);
            }
        }
        assert forall|k: Seq<char>| has_key(after, k) == (has_key(before, k) || k == wanted) by {
            if has_key(after, k) {
                let p = place_of(after, k);
                if p < last {
                    assert(before[p].key@ == k);
                }
            }
            if has_key(before, k) {
                let p = place_of(before, k);
                assert(after[p].key@ == k);
            }
            if k == wanted {
                assert(after[last].key@ == k);
            }
        }
        assert forall|k: Seq<char>| has_key(after, k) implies #[trigger] entries_map(after)[k]
            == entries_map(before).insert(wanted, list)[k] by {
            let p = place_of(after, k);
            if k == wanted {
                assert(after[last].key@ == wanted);
                assert(p == last);
            } else {
                assert(before[p].key@ == k);
                let q = place_of(before, k);
                assert(after[q].key@ == k);
                assert(p == q);
            }
        }
        assert(entries_map(after) =~= entries_map(before).insert(wanted, list));
    }
}

impl View for PendingVersions {
    type V = Map<Seq<char>, Seq<Seq<nat>>>;

    closed spec fn view(&self) -> Map<Seq<char>, Seq<Seq<nat>>> {
        entries_map(self.entries@)
    }
}

impl PendingVersions {
    #[verifier::type_invariant]
    closed spec fn inv(&self) -> bool {
        distinct_keys(self.entries@)
    }

    /// The mapping without entries.
    pub fn new() -> (r: PendingVersions)
        ensures
            r@ == Map::<Seq<char>, Seq<Seq<nat>>>::empty(),
    {
        let r = PendingVersions { entries: Vec::new() };
        assert(r@ =~= Map::<Seq<char>, Seq<Seq<nat>>>::empty());
        r
    }

    /// The entries, one for each key, in no order that counts.
    pub fn entries(&self) -> (r: &Vec<PendingEntry>)
        ensures
            distinct_keys(r@),
            entries_map(r@) == self@,
    {
        proof {
            use_type_invariant(self);
        }
        &self.entries
    }

    /// The pending versions of the issue `key`, if it has an entry.
    pub fn get(&self, key: &str) -> (r: Option<&Vec<VersionToken>>)
        ensures
            match r {
                Some(versions) => self@.dom().contains(key@) && self@[key@] == views(versions@),
                None => !self@.dom().contains(key@),
            },
    {
        proof {
            use_type_invariant(self);
        }
        let wanted = key.to_owned();
        let mut i: usize = 0;
        while i < self.entries.len()
            invariant
                i <= self.entries.len(),
                wanted@ == key@,
                distinct_keys(self.entries@),
                forall|j: int| 0 <= j < i ==> (#[trigger] self.entries@[j]).key@ != key@,
            decreases self.entries.len() - i,
        {
            if self.entries[i].key == wanted {
                proof {
                    assert(self.entries@[i as int].key@ == key@);
                    let p = place_of(self.entries@, key@);
                    assert(p == i);
                }
                return Some(&self.entries[i].versions);
            }
            i += 1;
        }
        None
    }
}

/// The pending versions of the issues found, by issue key: for each issue
/// the tokens in its field `field_id`. An issue without a key, or without a
/// single pending version, has no entry.
pub fn parse_pending_versions(search: &Vec<Issue>, field_id: &str) -> (r: PendingVersions)
    ensures
        r@ == gather(search@, field_id@),
{
    let mut entries: Vec<PendingEntry> = Vec::new();
    let mut k: usize = 0;
    assert(search@.take(0) == Seq::<Issue>::empty());
    assert(entries_map(entries@) =~= Map::<Seq<char>, Seq<Seq<nat>>>::empty());
    while k < search.len()
        invariant
            k <= search.len(),
            distinct_keys(entries@),
            entries_map(entries@) == gather(search@.take(k as int), field_id@),
        decreases search.len() - k,
    {
        let issue = &search[k];
        proof {
            let now = search@.take(k as int + 1);
            assert(now.drop_last() == search@.take(k as int));
            assert(now.last() == search@[k as int]);
        }
        let list = parse_pending_version_field(issue.text_field(field_id));
        assert(views(list@) == pending_of(*issue, field_id@));
        assert(views(list@).len() == list@.len());
        if !issue.key.as_str().is_empty() && list.len() > 0 {
            put_entry(&mut entries, issue.key.clone(), list);
        }
        k += 1;
    }
    assert(search@.take(k as int) == search@);
    PendingVersions { entries }
}

} // verus!
