//! Duplicate detection: the records of a run grouped by the identity of
//! their content, with the identities that only one record has left out.

use crate::record::{record_views, FileInfo, FileInfoView};
use vstd::hash_map::StringHashMap;
use vstd::prelude::*;

verus! {

/// The files that share one content identity.
pub struct DuplicateGroup {
    /// The identity that the files share.
    pub hash: String,
    /// The paths of the files, in the order of their records.
    pub files: Vec<String>,
    /// The number of files.
    pub count: usize,
}

/// A `DuplicateGroup` as plain values.
pub struct DuplicateGroupView {
    pub hash: Seq<char>,
    pub files: Seq<Seq<char>>,
    pub count: nat,
}

/// The texts of a list of strings.
pub open spec fn texts(strings: Seq<String>) -> Seq<Seq<char>> {
    Seq::new(strings.len(), |i: int| strings[i]@)
}

impl View for DuplicateGroup {
    type V = DuplicateGroupView;

    open spec fn view(&self) -> DuplicateGroupView {
        DuplicateGroupView {
            hash: self.hash@,
            files: texts(self.files@),
            count: self.count as nat,
        }
    }
}

/// The groups as plain values.
pub open spec fn group_views(groups: Seq<DuplicateGroup>) -> Seq<DuplicateGroupView> {
    Seq::new(groups.len(), |i: int| groups[i]@)
}

/// The paths of the records with the identity `hash`, in the order of the
/// records.
pub open spec fn members(records: Seq<FileInfoView>, hash: Seq<char>) -> Seq<Seq<char>>
    decreases records.len(),
{
    if records.len() == 0 {
        Seq::empty()
    } else if records.last().hash == hash {
        members(records.drop_last(), hash).push(records.last().file_path)
    } else {
        members(records.drop_last(), hash)
    }
}

/// The identities of the records, each once, in the order in which they
/// first occur.
pub open spec fn identities(records: Seq<FileInfoView>) -> Seq<Seq<char>>
    decreases records.len(),
{
    if records.len() == 0 {
        Seq::empty()
    } else if identities(records.drop_last()).contains(records.last().hash) {
        identities(records.drop_last())
    } else {
        identities(records.drop_last()).push(records.last().hash)
    }
}

/// The group of the identity `hash`.
pub open spec fn group_of(records: Seq<FileInfoView>, hash: Seq<char>) -> DuplicateGroupView {
    DuplicateGroupView {
        hash,
        files: members(records, hash),
        count: members(records, hash).len(),
    }
}

/// The groups of those of `hashes` that two or more records have, in the
/// order of `hashes`.
pub open spec fn groups_among(records: Seq<FileInfoView>, hashes: Seq<Seq<char>>) -> Seq<
    DuplicateGroupView,
>
    decreases hashes.len(),
{
    if hashes.len() == 0 {
        Seq::empty()
    } else if members(records, hashes.last()).len() >= 2 {
        groups_among(records, hashes.drop_last()).push(group_of(records, hashes.last()))
    } else {
        groups_among(records, hashes.drop_last())
    }
}

/// The duplicate groups of `records`: one group for each identity that two
/// or more records have, in the order in which the identities first occur.
pub open spec fn duplicate_groups(records: Seq<FileInfoView>) -> Seq<DuplicateGroupView> {
    groups_among(records, identities(records))
}

/// The number of those of `hashes` that exactly one record has.
pub open spec fn singles_among(records: Seq<FileInfoView>, hashes: Seq<Seq<char>>) -> nat
    decreases hashes.len(),
{
    if hashes.len() == 0 {
        0
    } else if members(records, hashes.last()).len() == 1 {
        singles_among(records, hashes.drop_last()) + 1
    } else {
        singles_among(records, hashes.drop_last())
    }
}

/// The number of identities that exactly one record has: the groups of one
/// that are left out.
pub open spec fn singleton_count(records: Seq<FileInfoView>) -> nat {
    singles_among(records, identities(records))
}

/// The sum of the counts of `groups`.
pub open spec fn total_count(groups: Seq<DuplicateGroupView>) -> nat
    decreases groups.len(),
{
    if groups.len() == 0 {
        0
    } else {
        total_count(groups.drop_last()) + groups.last().count
    }
}

/// An identity is listed exactly where some record has it, and no identity
/// is listed twice.
pub proof fn lemma_identities(records: Seq<FileInfoView>)
    ensures
        identities(records).no_duplicates(),
        forall|hash: Seq<char>| #[trigger]
            identities(records).contains(hash) <==> exists|i: int|
                0 <= i < records.len() && (#[trigger] records[i]).hash == hash,
    decreases records.len(),
{
    if records.len() > 0 {
        let front = records.drop_last();
        let last = records.last();
        lemma_identities(front);
        let ids = identities(records);
        assert forall|hash: Seq<char>| #[trigger]
            ids.contains(hash) <==> exists|i: int|
                0 <= i < records.len() && (#[trigger] records[i]).hash == hash by {
            if ids.contains(hash) {
                if identities(front).contains(hash) {
                    let i = choose|i: int| 0 <= i < front.len() && (#[trigger] front[i]).hash == hash;
                    assert(records[i].hash == hash);
                } else {
                    let j = choose|j: int| 0 <= j < ids.len() && ids[j] == hash;
                    if j < identities(front).len() {
                        assert(identities(front)[j] == hash);
                    }
                    assert(records[records.len() - 1].hash == hash);
                }
            }
            if exists|i: int| 0 <= i < records.len() && (#[trigger] records[i]).hash == hash {
                let i = choose|i: int| 0 <= i < records.len() && (#[trigger] records[i]).hash == hash;
                if i < front.len() {
                    assert(front[i].hash == hash);
                    assert(identities(front).contains(hash));
                    let j = choose|j: int|
                        0 <= j < identities(front).len() && identities(front)[j] == hash;
                    assert(ids[j] == hash);
                } else {
                    if identities(front).contains(last.hash) {
                    } else {
                        assert(ids[ids.len() - 1] == hash);
                    }
                }
            }
        }
    }
}

/// An identity has members exactly where some record has it.
pub proof fn lemma_members_present(records: Seq<FileInfoView>, hash: Seq<char>)
    ensures
        members(records, hash).len() >= 1 <==> identities(records).contains(hash),
        members(records, hash).len() <= records.len(),
    decreases records.len(),
{
    lemma_identities(records);
    if records.len() > 0 {
        let front = records.drop_last();
        lemma_members_present(front, hash);
        lemma_identities(front);
        if records.last().hash == hash {
            assert(records[records.len() - 1].hash == hash);
        } else {
            if identities(records).contains(hash) {
                let i = choose|i: int| 0 <= i < records.len() && (#[trigger] records[i]).hash == hash;
                assert(front[i].hash == hash);
            }
            if identities(front).contains(hash) {
                let i = choose|i: int| 0 <= i < front.len() && (#[trigger] front[i]).hash == hash;
                assert(records[i].hash == hash);
            }
        }
    }
}

/// Each group among `hashes` is the group of one of them that two or more
/// records have, and each of `hashes` that two or more records have has its
/// group.
pub proof fn lemma_groups_among(records: Seq<FileInfoView>, hashes: Seq<Seq<char>>)
    ensures
        forall|j: int|
            0 <= j < groups_among(records, hashes).len() ==> {
                let g = #[trigger] groups_among(records, hashes)[j];
                &&& hashes.contains(g.hash)
                &&& g == group_of(records, g.hash)
                &&& g.count >= 2
            },
        forall|k: int|
            0 <= k < hashes.len() && members(records, #[trigger] hashes[k]).len() >= 2
                ==> exists|j: int|
                0 <= j < groups_among(records, hashes).len() && (#[trigger] groups_among(
                    records,
                    hashes,
                )[j]).hash == hashes[k],
        hashes.no_duplicates() ==> forall|i: int, j: int|
            0 <= i < j < groups_among(records, hashes).len() ==> (#[trigger] groups_among(
                records,
                hashes,
            )[i]).hash != (#[trigger] groups_among(records, hashes)[j]).hash,
    decreases hashes.len(),
{
    if hashes.len() > 0 {
        let front = hashes.drop_last();
        let last = hashes.last();
        let groups = groups_among(records, hashes);
        let earlier = groups_among(records, front);
        lemma_groups_among(records, front);
        assert forall|j: int| 0 <= j < groups.len() implies {
            let g = #[trigger] groups[j];
            &&& hashes.contains(g.hash)
            &&& g == group_of(records, g.hash)
            &&& g.count >= 2
        } by {
            if j < earlier.len() {
                assert(groups[j] == earlier[j]);
                let k = choose|k: int| 0 <= k < front.len() && front[k] == earlier[j].hash;
                assert(hashes[k] == earlier[j].hash);
            } else {
                assert(hashes[hashes.len() - 1] == last);
            }
        }
        assert forall|k: int|
            0 <= k < hashes.len() && members(records, #[trigger] hashes[k]).len()
                >= 2 implies exists|j: int|
            0 <= j < groups.len() && (#[trigger] groups[j]).hash == hashes[k] by {
            if k < front.len() {
                assert(front[k] == hashes[k]);
                let j = choose|j: int|
                    0 <= j < earlier.len() && (#[trigger] earlier[j]).hash == front[k];
                assert(groups[j].hash == hashes[k]);
            } else {
                assert(groups[groups.len() - 1].hash == hashes[k]);
            }
        }
        if hashes.no_duplicates() {
            assert(front.no_duplicates()) by {
                assert forall|a: int, b: int| 0 <= a < front.len() && 0 <= b < front.len() && a
                    != b implies front[a] != front[b] by {
                    assert(front[a] == hashes[a] && front[b] == hashes[b]);
                }
            }
            assert forall|i: int, j: int| 0 <= i < j < groups.len() implies (#[trigger] groups[i]).hash
                != (#[trigger] groups[j]).hash by {
                assert(groups[i] == earlier[i]);
                if j < earlier.len() {
                    assert(groups[j] == earlier[j]);
                } else {
                    let k = choose|k: int| 0 <= k < front.len() && front[k] == earlier[i].hash;
                    assert(hashes[k] == earlier[i].hash);
                    assert(hashes[hashes.len() - 1] == last);
                }
            }
        }
    }
}

/// The path of each record is among the members of the record's identity.
pub proof fn lemma_record_is_member(records: Seq<FileInfoView>, i: int)
    requires
        0 <= i < records.len(),
    ensures
        members(records, records[i].hash).contains(records[i].file_path),
    decreases records.len(),
{
    let hash = records[i].hash;
    let front = records.drop_last();
    if i == records.len() - 1 {
        let m = members(records, hash);
        assert(m[m.len() - 1] == records[i].file_path);
    } else {
        lemma_record_is_member(front, i);
        assert(front[i] == records[i]);
        let f = members(front, hash);
        let k = choose|k: int| 0 <= k < f.len() && f[k] == records[i].file_path;
        assert(members(records, hash)[k] == records[i].file_path);
    }
}

/// Each group holds the files of one identity that two or more records have:
/// the paths of exactly the records with that identity, in their order, and
/// their number.
pub proof fn law_groups_are_sound(records: Seq<FileInfoView>)
    ensures
        forall|j: int|
            0 <= j < duplicate_groups(records).len() ==> {
                let g = #[trigger] duplicate_groups(records)[j];
                &&& g.files == members(records, g.hash)
                &&& g.count == g.files.len()
                &&& g.count >= 2
            },
{
    lemma_groups_among(records, identities(records));
}

/// No two groups have the same identity.
pub proof fn law_groups_are_distinct(records: Seq<FileInfoView>)
    ensures
        forall|i: int, j: int|
            0 <= i < j < duplicate_groups(records).len() ==> (#[trigger] duplicate_groups(
                records,
            )[i]).hash != (#[trigger] duplicate_groups(records)[j]).hash,
{
    lemma_identities(records);
    lemma_groups_among(records, identities(records));
}

/// Each record whose identity two or more records have is in the group of
/// that identity, which is there; a record whose identity no other record has
/// is in no group.
pub proof fn law_every_record_is_placed(records: Seq<FileInfoView>, i: int)
    requires
        0 <= i < records.len(),
    ensures
        members(records, records[i].hash).len() >= 1,
        members(records, records[i].hash).contains(records[i].file_path),
        members(records, records[i].hash).len() >= 2 ==> exists|j: int|
            0 <= j < duplicate_groups(records).len() && (#[trigger] duplicate_groups(
                records,
            )[j]).hash == records[i].hash && duplicate_groups(records)[j].files.contains(
                records[i].file_path,
            ),
        members(records, records[i].hash).len() == 1 ==> forall|j: int|
            0 <= j < duplicate_groups(records).len() ==> (#[trigger] duplicate_groups(
                records,
            )[j]).hash != records[i].hash,
{
    let hash = records[i].hash;
    let ids = identities(records);
    let groups = duplicate_groups(records);
    lemma_identities(records);
    lemma_members_present(records, hash);
    lemma_record_is_member(records, i);
    lemma_groups_among(records, ids);
    assert(ids.contains(hash));
    if members(records, hash).len() >= 2 {
        let k = choose|k: int| 0 <= k < ids.len() && ids[k] == hash;
        assert(members(records, ids[k]).len() >= 2);
        let j = choose|j: int| 0 <= j < groups.len() && (#[trigger] groups[j]).hash == ids[k];
        assert(groups[j] == group_of(records, hash));
    }
}

/// The number of records that have one of `hashes` as their identity, where
/// no identity is listed twice.
pub open spec fn records_among(records: Seq<FileInfoView>, hashes: Seq<Seq<char>>) -> nat
    decreases hashes.len(),
{
    if hashes.len() == 0 {
        0
    } else {
        records_among(records, hashes.drop_last()) + members(records, hashes.last()).len()
    }
}

/// One more record adds one to the count of the records among `hashes` where
/// its identity is listed, and nothing where it is not.
pub proof fn lemma_records_among_push(
    records: Seq<FileInfoView>,
    record: FileInfoView,
    hashes: Seq<Seq<char>>,
)
    requires
        hashes.no_duplicates(),
    ensures
        records_among(records.push(record), hashes) == records_among(records, hashes) + (
        if hashes.contains(record.hash) {
            1nat
        } else {
            0nat
        }),
    decreases hashes.len(),
{
    let more = records.push(record);
    assert(more.drop_last() == records);
    assert(more.last() == record);
    if hashes.len() > 0 {
        let front = hashes.drop_last();
        let last = hashes.last();
        assert(front.no_duplicates()) by {
            assert forall|a: int, b: int| 0 <= a < front.len() && 0 <= b < front.len() && a
                != b implies front[a] != front[b] by {
                assert(front[a] == hashes[a] && front[b] == hashes[b]);
            }
        }
        lemma_records_among_push(records, record, front);
        if last == record.hash {
            assert(hashes[hashes.len() - 1] == record.hash);
            if front.contains(record.hash) {
                let k = choose|k: int| 0 <= k < front.len() && front[k] == record.hash;
                assert(hashes[k] == hashes[hashes.len() - 1]);
            }
        } else {
            if hashes.contains(record.hash) {
                let k = choose|k: int| 0 <= k < hashes.len() && hashes[k] == record.hash;
                assert(front[k] == record.hash);
            }
            if front.contains(record.hash) {
                let k = choose|k: int| 0 <= k < front.len() && front[k] == record.hash;
                assert(hashes[k] == record.hash);
            }
        }
    }
}

/// Every record has one of the listed identities, and only one.
pub proof fn lemma_records_among_identities(records: Seq<FileInfoView>)
    ensures
        records_among(records, identities(records)) == records.len(),
    decreases records.len(),
{
    if records.len() > 0 {
        let front = records.drop_last();
        let last = records.last();
        assert(front.push(last) == records);
        lemma_records_among_identities(front);
        lemma_identities(front);
        lemma_records_among_push(front, last, identities(front));
        if !identities(front).contains(last.hash) {
            let ids = identities(records);
            assert(ids.drop_last() == identities(front));
            assert(ids.last() == last.hash);
            lemma_members_present(front, last.hash);
            assert(members(front, last.hash).len() == 0);
            assert(members(records, last.hash).len() == 1);
        }
    }
}

/// Where each of `hashes` has a record, the counts of the groups among them
/// and the number of those with one record add up to the records among them.
pub proof fn lemma_counts_among(records: Seq<FileInfoView>, hashes: Seq<Seq<char>>)
    requires
        forall|k: int| 0 <= k < hashes.len() ==> members(records, #[trigger] hashes[k]).len() >= 1,
    ensures
        total_count(groups_among(records, hashes)) + singles_among(records, hashes)
            == records_among(records, hashes),
    decreases hashes.len(),
{
    if hashes.len() > 0 {
        let front = hashes.drop_last();
        assert forall|k: int| 0 <= k < front.len() implies members(
            records,
            #[trigger] front[k],
        ).len() >= 1 by {
            assert(front[k] == hashes[k]);
        }
        lemma_counts_among(records, front);
        assert(members(records, hashes[hashes.len() - 1]).len() >= 1);
        if members(records, hashes.last()).len() >= 2 {
            let groups = groups_among(records, hashes);
            assert(groups.drop_last() == groups_among(records, front));
        }
    }
}

/// The counts of all groups and the number of identities that only one
/// record has add up to the number of records.
pub proof fn law_counts_add_up(records: Seq<FileInfoView>)
    ensures
        total_count(duplicate_groups(records)) + singleton_count(records) == records.len(),
{
    let ids = identities(records);
    assert forall|k: int| 0 <= k < ids.len() implies members(records, #[trigger] ids[k]).len()
        >= 1 by {
        lemma_members_present(records, ids[k]);
    }
    lemma_counts_among(records, ids);
    lemma_records_among_identities(records);
}

/// The records of one identity while the records are read.
struct Bucket {
    hash: String,
    files: Vec<String>,
}

/// The identities of the buckets.
spec fn bucket_hashes(buckets: Seq<Bucket>) -> Seq<Seq<char>> {
    Seq::new(buckets.len(), |i: int| buckets[i].hash@)
}

/// The buckets hold the records of `records`: one bucket for each identity,
/// in the order of first occurrence, with the paths of its records.
spec fn buckets_hold(buckets: Seq<Bucket>, records: Seq<FileInfoView>) -> bool {
    &&& bucket_hashes(buckets) == identities(records)
    &&& forall|i: int|
        0 <= i < buckets.len() ==> texts((#[trigger] buckets[i]).files@) == members(
            records,
            buckets[i].hash@,
        )
}

/// The index leads from each identity to the place of its bucket.
spec fn index_leads(index: Map<Seq<char>, usize>, buckets: Seq<Bucket>) -> bool {
    &&& forall|hash: Seq<char>| #[trigger]
        index.contains_key(hash) ==> index[hash] < buckets.len() && buckets[index[hash] as int].hash@
            == hash
    &&& forall|i: int|
        0 <= i < buckets.len() ==> index.contains_key((#[trigger] buckets[i]).hash@)
            && index[buckets[i].hash@] == i
}

/// Sorts the records into buckets by identity.
fn fill_buckets(records: &Vec<FileInfo>) -> (buckets: Vec<Bucket>)
    ensures
        buckets_hold(buckets@, record_views(records@)),
{
    let ghost all = record_views(records@);
    let mut buckets: Vec<Bucket> = Vec::new();
    let mut index: StringHashMap<usize> = StringHashMap::new();
    let mut k: usize = 0;
    assert(all.subrange(0, 0) == Seq::<FileInfoView>::empty());
    assert(bucket_hashes(buckets@) == Seq::<Seq<char>>::empty());
    while k < records.len()
        invariant
            k <= records@.len(),
            all == record_views(records@),
            buckets_hold(buckets@, all.subrange(0, k as int)),
            index_leads(index@, buckets@),
        decreases records@.len() - k,
    {
        let ghost seen = all.subrange(0, k as int);
        let ghost next = all.subrange(0, k + 1);
        let ghost before = buckets@;
        let record = &records[k];
        proof {
            assert(all[k as int] == record@);
            assert(next.drop_last() == seen);
            assert(next.last() == record@);
            lemma_identities(seen);
            lemma_members_present(seen, record.hash@);
        }
        let place = match index.get(record.hash.as_str()) {
            Some(i) => Some(*i),
            None => None,
        };
        match place {
            Some(i) => {
                assert(before[i as int].hash@ == record.hash@);
                assert(bucket_hashes(before)[i as int] == record.hash@);
                let path = record.file_path.clone();
                buckets[i].files.push(path);
                proof {
                    assert(bucket_hashes(buckets@) == bucket_hashes(before));
                    assert forall|j: int| 0 <= j < buckets@.len() implies texts(
                        (#[trigger] buckets@[j]).files@,
                    ) == members(next, buckets@[j].hash@) by {
                        assert(texts(before[j].files@) == members(seen, before[j].hash@));
                        if j == i {
                            assert(texts(buckets@[j].files@) == texts(before[j].files@).push(
                                record.file_path@,
                            ));
                        } else {
                            assert(buckets@[j] == before[j]);
                            assert(index@[before[j].hash@] == j);
                        }
                    }
                    assert(index_leads(index@, buckets@)) by {
                        assert forall|h: Seq<char>| #[trigger]
                            index@.contains_key(h) implies index@[h] < buckets@.len()
                            && buckets@[index@[h] as int].hash@ == h by {
                            assert(before[index@[h] as int].hash@ == h);
                        }
                        assert forall|j: int| 0 <= j < buckets@.len() implies index@.contains_key(
                            (#[trigger] buckets@[j]).hash@,
                        ) && index@[buckets@[j].hash@] == j by {
                            assert(buckets@[j].hash@ == before[j].hash@);
                        }
                    }
                }
            },
            None => {
                proof {
                    if identities(seen).contains(record.hash@) {
                        let j = choose|j: int|
                            0 <= j < identities(seen).len() && identities(seen)[j] == record.hash@;
                        assert(bucket_hashes(before)[j] == record.hash@);
                        assert(index@.contains_key(before[j].hash@));
                    }
                }
                let ghost old_index = index@;
                let hash = record.hash.clone();
                let path = record.file_path.clone();
                index.insert(record.hash.clone(), buckets.len());
                let mut files: Vec<String> = Vec::new();
                files.push(path);
                buckets.push(Bucket { hash, files });
                proof {
                    assert(bucket_hashes(buckets@) == bucket_hashes(before).push(record.hash@));
                    assert(texts(files@) == Seq::<Seq<char>>::empty().push(record.file_path@));
                    assert forall|j: int| 0 <= j < buckets@.len() implies texts(
                        (#[trigger] buckets@[j]).files@,
                    ) == members(next, buckets@[j].hash@) by {
                        if j < before.len() {
                            assert(buckets@[j] == before[j]);
                            assert(texts(before[j].files@) == members(seen, before[j].hash@));
                            assert(old_index.contains_key(before[j].hash@));
                        }
                    }
                    assert(index_leads(index@, buckets@)) by {
                        assert forall|h: Seq<char>| #[trigger]
                            index@.contains_key(h) implies index@[h] < buckets@.len()
                            && buckets@[index@[h] as int].hash@ == h by {
                            if h != record.hash@ {
                                assert(old_index.contains_key(h));
                                assert(buckets@[old_index[h] as int] == before[old_index[h] as int]);
                            }
                        }
                        assert forall|j: int| 0 <= j < buckets@.len() implies index@.contains_key(
                            (#[trigger] buckets@[j]).hash@,
                        ) && index@[buckets@[j].hash@] == j by {
                            if j < before.len() {
                                assert(buckets@[j] == before[j]);
                                assert(old_index.contains_key(before[j].hash@));
                            }
                        }
                    }
                }
            },
        }
        k += 1;
    }
    assert(all.subrange(0, k as int) == all);
    buckets
}

/// Groups the records by the identity of their content. Each identity that
/// two or more records have gives one group, with the paths of its records
/// in their order and their number; an identity that only one record has
/// gives none. The groups stand in the order in which their identities first
/// occur among the records. Identities are equal where their texts are equal,
/// character for character.
pub fn find_duplicates(records: &Vec<FileInfo>) -> (groups: Vec<DuplicateGroup>)
    ensures
        group_views(groups@) == duplicate_groups(record_views(records@)),
{
    let ghost all = record_views(records@);
    let buckets = fill_buckets(records);
    let ghost filled = buckets@;
    let mut groups: Vec<DuplicateGroup> = Vec::new();
    assert(identities(all).subrange(0, 0) == Seq::<Seq<char>>::empty());
    assert(group_views(groups@) == Seq::<DuplicateGroupView>::empty());
    for bucket in it: buckets
        invariant
            it.seq() == filled,
            buckets_hold(filled, all),
            group_views(groups@) == groups_among(
                all,
                identities(all).subrange(0, it.index() as int),
            ),
    {
        let ghost i = it.index() as int;
        let ghost before = groups@;
        proof {
            assert(bucket == filled[i]);
            assert(bucket_hashes(filled)[i] == bucket.hash@);
            assert(identities(all).subrange(0, i + 1).drop_last() == identities(all).subrange(
                0,
                i,
            ));
            assert(identities(all).subrange(0, i + 1).last() == bucket.hash@);
            assert(texts(bucket.files@) == members(all, bucket.hash@));
        }
        let count = bucket.files.len();
        if count >= 2 {
            let group = DuplicateGroup { hash: bucket.hash, files: bucket.files, count };
            assert(group@ == group_of(all, group.hash@));
            groups.push(group);
            assert(group_views(groups@) == group_views(before).push(group_of(all, bucket.hash@)));
        }
    }
    assert(identities(all).subrange(0, identities(all).len() as int) == identities(all));
    groups
}

} // verus!
