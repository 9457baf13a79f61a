//! The image index: which entries of the output directory are generated
//! images, and in what order they are listed.
//!
//! Reading the directory is the caller's business. What was found there is
//! handed over as a [`DirectoryScan`]; the listing is computed from it.

use vstd::prelude::*;
use crate::text::{chars_of, range_equals, texts};

verus! {

/// One entry of the output directory, as the file system reported it.
#[derive(Clone, Debug)]
pub struct ScanEntry {
    /// The entry's name inside the directory.
    pub file_name: String,
    /// The entry's full path.
    pub path: String,
    /// Last modification, in nanoseconds relative to the Unix epoch;
    /// `None` where the entry's metadata could not be read.
    pub modified: Option<i128>,
}

/// What a read of the output directory gave.
#[derive(Clone, Debug)]
pub enum DirectoryScan {
    /// The directory is missing or could not be read.
    Unreadable,
    /// The directory's entries in the order they were enumerated; `None`
    /// stands for an entry that could not be read.
    Entries(Vec<Option<ScanEntry>>),
}

/// A generated image found on disk.
#[derive(Clone, Debug)]
pub struct ArtifactRecord {
    pub path: String,
    pub modified: i128,
}

/// The position of the last `.` of `name`, or -1 where it has none.
pub open spec fn last_dot(name: Seq<char>) -> int
    decreases name.len(),
{
    if name.len() == 0 {
        -1
    } else if name.last() == '.' {
        name.len() - 1
    } else {
        last_dot(name.drop_last())
    }
}

/// The extension of a file name: what follows its last `.`. A name without a
/// `.`, a name whose only `.` is its first character, and the name `..` have
/// no extension.
pub open spec fn extension(name: Seq<char>) -> Option<Seq<char>> {
    let dot = last_dot(name);
    if dot <= 0 || name == seq!['.', '.'] {
        None
    } else {
        Some(name.subrange(dot + 1, name.len() as int))
    }
}

/// The extensions of generated images. Matching is case-sensitive.
pub open spec fn is_image_extension(ext: Seq<char>) -> bool {
    ext == "png"@ || ext == "jpg"@ || ext == "jpeg"@
}

/// Whether a file of this name counts as a generated image.
pub open spec fn is_image_name(name: Seq<char>) -> bool {
    match extension(name) {
        Some(ext) => is_image_extension(ext),
        None => false,
    }
}

/// Whether an entry is listed: it was readable, it is named like an image
/// and its modification time is known.
pub open spec fn is_listed(entry: Option<ScanEntry>) -> bool {
    match entry {
        Some(e) => is_image_name(e.file_name@) && e.modified is Some,
        None => false,
    }
}

/// The record that a listed entry gives.
pub open spec fn record_of(entry: Option<ScanEntry>) -> ArtifactRecord {
    ArtifactRecord { path: entry->0.path, modified: entry->0.modified->0 }
}

/// The records of the listed entries, in the order of enumeration.
pub open spec fn records_of(entries: Seq<Option<ScanEntry>>) -> Seq<ArtifactRecord>
    decreases entries.len(),
{
    if entries.len() == 0 {
        Seq::empty()
    } else if is_listed(entries.last()) {
        records_of(entries.drop_last()).push(record_of(entries.last()))
    } else {
        records_of(entries.drop_last())
    }
}

/// Where a record modified at `modified` goes into `sorted`: behind every
/// record that is at least as recent.
pub open spec fn insertion_point(sorted: Seq<ArtifactRecord>, modified: i128) -> int
    decreases sorted.len(),
{
    if sorted.len() == 0 {
        0
    } else if sorted.last().modified >= modified {
        sorted.len() as int
    } else {
        insertion_point(sorted.drop_last(), modified)
    }
}

/// The records from the most recent to the oldest; records of the same
/// modification time keep the order they came in.
pub open spec fn recency_order(records: Seq<ArtifactRecord>) -> Seq<ArtifactRecord>
    decreases records.len(),
{
    if records.len() == 0 {
        Seq::empty()
    } else {
        let earlier = recency_order(records.drop_last());
        earlier.insert(insertion_point(earlier, records.last().modified), records.last())
    }
}

/// The paths of the records, in order.
pub open spec fn paths_of(records: Seq<ArtifactRecord>) -> Seq<Seq<char>> {
    records.map_values(|r: ArtifactRecord| r.path@)
}

/// The listing that a scan gives: nothing for an unreadable directory, else
/// the paths of the listed entries, most recent first.
pub open spec fn listing(scan: DirectoryScan) -> Seq<Seq<char>> {
    match scan {
        DirectoryScan::Unreadable => Seq::empty(),
        DirectoryScan::Entries(entries) => paths_of(recency_order(records_of(entries@))),
    }
}

/// Where the extension of `name` starts; `None` where it has none.
pub fn extension_start(name: &Vec<char>) -> (start: Option<usize>)
    ensures
        match start {
            Some(at) => at <= name.len() && extension(name@) == Some(
                name@.subrange(at as int, name.len() as int),
            ),
            None => extension(name@) is None,
        },
{
    let n: usize = name.len();
    let mut at: usize = n;
    assert(name@.take(n as int) == name@);
    while at > 0 && name[at - 1] != '.'
        invariant
            at <= n,
            n == name.len(),
            last_dot(name@) == last_dot(name@.take(at as int)),
        decreases at,
    {
        proof {
            let head = name@.take(at as int);
            assert(head.drop_last() == name@.take(at - 1));
            assert(head.last() == name@[at - 1]);
        }
        at -= 1;
    }
    proof {
        if at > 0 {
            assert(name@.take(at as int).last() == name@[at - 1]);
        }
        assert(last_dot(name@) == at - 1);
    }
    if at <= 1 {
        return None;
    }
    if n == 2 && name[0] == '.' {
        assert(name@ == seq!['.', '.']);
        return None;
    }
    assert(name@ != seq!['.', '.']) by {
        if name@ == seq!['.', '.'] {
            assert(name@.len() == 2 && name@[0] == '.');
        }
    }
    Some(at)
}

/// Whether a file of this name counts as a generated image: its extension
/// is `png`, `jpg` or `jpeg`, in exactly this spelling.
pub fn has_image_extension(file_name: &str) -> (image: bool)
    ensures
        image == is_image_name(file_name@),
{
    let name = chars_of(file_name);
    match extension_start(&name) {
        Some(at) => {
            let n: usize = name.len();
            range_equals(&name, at, n, &chars_of("png")) || range_equals(
                &name,
                at,
                n,
                &chars_of("jpg"),
            ) || range_equals(&name, at, n, &chars_of("jpeg"))
        },
        None => false,
    }
}

/// The records of the listed entries, in the order of enumeration. Entries
/// that could not be read, or whose modification time is unknown, are left
/// out, as are entries that are not named like an image.
pub fn collect_records(entries: &Vec<Option<ScanEntry>>) -> (records: Vec<ArtifactRecord>)
    ensures
        records@ == records_of(entries@),
{
    let mut records: Vec<ArtifactRecord> = Vec::new();
    let mut i: usize = 0;
    while i < entries.len()
        invariant
            i <= entries.len(),
            records@ == records_of(entries@.take(i as int)),
        decreases entries.len() - i,
    {
        proof {
            let next = entries@.take(i + 1);
            assert(next.drop_last() == entries@.take(i as int));
            assert(next.last() == entries@[i as int]);
        }
        match &entries[i] {
            Some(entry) => {
                match entry.modified {
                    Some(modified) => {
                        if has_image_extension(entry.file_name.as_str()) {
                            records.push(ArtifactRecord { path: entry.path.clone(), modified });
                        }
                    },
                    None => {},
                }
            },
            None => {},
        }
        i += 1;
    }
    assert(entries@.take(entries.len() as int) == entries@);
    records
}

/// The records from the most recent to the oldest. Records of the same
/// modification time keep the order they came in.
pub fn sort_by_recency(records: &Vec<ArtifactRecord>) -> (sorted: Vec<ArtifactRecord>)
    ensures
        sorted@ == recency_order(records@),
{
    let mut sorted: Vec<ArtifactRecord> = Vec::new();
    let mut i: usize = 0;
    while i < records.len()
        invariant
            i <= records.len(),
            sorted@ == recency_order(records@.take(i as int)),
            sorted.len() == i,
        decreases records.len() - i,
    {
        proof {
            let next = records@.take(i + 1);
            assert(next.drop_last() == records@.take(i as int));
            assert(next.last() == records@[i as int]);
        }
        let modified: i128 = records[i].modified;
        let mut at: usize = sorted.len();
        assert(sorted@.take(at as int) == sorted@);
        while at > 0 && sorted[at - 1].modified < modified
            invariant
                at <= sorted.len(),
                insertion_point(sorted@, modified) == insertion_point(
                    sorted@.take(at as int),
                    modified,
                ),
            decreases at,
        {
            proof {
                let head = sorted@.take(at as int);
                assert(head.drop_last() == sorted@.take(at - 1));
                assert(head.last() == sorted@[at - 1]);
            }
            at -= 1;
        }
        proof {
            let head = sorted@.take(at as int);
            if at > 0 {
                assert(head.last() == sorted@[at - 1]);
            }
            assert(insertion_point(sorted@, modified) == at);
        }
        sorted.insert(at, ArtifactRecord { path: records[i].path.clone(), modified });
        i += 1;
    }
    assert(records@.take(records.len() as int) == records@);
    sorted
}

/// The paths of the generated images found by a scan of the output
/// directory, most recent first. A directory that is missing or unreadable
/// gives an empty listing.
pub fn list_images(scan: &DirectoryScan) -> (images: Vec<String>)
    ensures
        texts(images@) == listing(*scan),
        scan is Unreadable ==> images@.len() == 0,
{
    let mut images: Vec<String> = Vec::new();
    match scan {
        DirectoryScan::Unreadable => {
            assert(texts(images@) =~= Seq::<Seq<char>>::empty());
        },
        DirectoryScan::Entries(entries) => {
            let sorted = sort_by_recency(&collect_records(entries));
            let mut i: usize = 0;
            while i < sorted.len()
                invariant
                    i <= sorted.len(),
                    images@.len() == i,
                    forall|k: int| 0 <= k < i ==> images@[k]@ == sorted@[k].path@,
                decreases sorted.len() - i,
            {
                images.push(sorted[i].path.clone());
                i += 1;
            }
            assert(texts(images@) =~= paths_of(sorted@));
        },
    }
    images
}


/// What the insertion point divides: every record from it on is older than
/// `modified`, and a record just before it, if there is one, is not.
proof fn lemma_insertion_point(sorted: Seq<ArtifactRecord>, modified: i128)
    ensures
        0 <= insertion_point(sorted, modified) <= sorted.len(),
        forall|k: int|
            insertion_point(sorted, modified) <= k < sorted.len() ==> sorted[k].modified
                < modified,
        insertion_point(sorted, modified) > 0 ==> sorted[insertion_point(sorted, modified)
            - 1].modified >= modified,
    decreases sorted.len(),
{
    if sorted.len() > 0 && sorted.last().modified < modified {
        let front = sorted.drop_last();
        lemma_insertion_point(front, modified);
        assert forall|k: int|
            insertion_point(sorted, modified) <= k < sorted.len() implies sorted[k].modified
            < modified by {
            if k < front.len() {
                assert(sorted[k] == front[k]);
            }
        }
        if insertion_point(sorted, modified) > 0 {
            assert(sorted[insertion_point(sorted, modified) - 1] == front[insertion_point(
                front,
                modified,
            ) - 1]);
        }
    }
}

/// The recency order holds as many records as it was given.
pub proof fn lemma_recency_order_len(records: Seq<ArtifactRecord>)
    ensures
        recency_order(records).len() == records.len(),
    decreases records.len(),
{
    if records.len() > 0 {
        let earlier = recency_order(records.drop_last());
        lemma_recency_order_len(records.drop_last());
        lemma_insertion_point(earlier, records.last().modified);
    }
}

/// In the recency order, a record that stands before another is at least as
/// recent as that other.
pub proof fn lemma_recency_order_descends(records: Seq<ArtifactRecord>, i: int, j: int)
    requires
        0 <= i <= j < recency_order(records).len(),
    ensures
        recency_order(records)[i].modified >= recency_order(records)[j].modified,
    decreases records.len(),
{
    lemma_recency_order_len(records);
    let earlier = recency_order(records.drop_last());
    let new = records.last();
    let at = insertion_point(earlier, new.modified);
    lemma_recency_order_len(records.drop_last());
    lemma_insertion_point(earlier, new.modified);
    let order = recency_order(records);
    assert(order == earlier.insert(at, new));
    if i == j {
    } else if j < at {
        lemma_recency_order_descends(records.drop_last(), i, j);
    } else if j == at {
        lemma_recency_order_descends(records.drop_last(), i, at - 1);
    } else if i < at {
        lemma_recency_order_descends(records.drop_last(), i, j - 1);
    } else if i == at {
        assert(order[j] == earlier[j - 1]);
    } else {
        lemma_recency_order_descends(records.drop_last(), i - 1, j - 1);
    }
}

/// The recency order holds exactly the records it was given, each as often
/// as it was given.
pub proof fn lemma_recency_order_permutes(records: Seq<ArtifactRecord>)
    ensures
        recency_order(records).to_multiset() == records.to_multiset(),
    decreases records.len(),
{
    if records.len() == 0 {
        assert(records == Seq::<ArtifactRecord>::empty());
    } else {
        let earlier = recency_order(records.drop_last());
        let new = records.last();
        lemma_recency_order_permutes(records.drop_last());
        lemma_insertion_point(earlier, new.modified);
        assert(records.drop_last().push(new) == records);
        vstd::seq_lib::to_multiset_insert(earlier, insertion_point(earlier, new.modified), new);
        vstd::seq_lib::to_multiset_build(records.drop_last(), new);
    }
}

/// The recency order is stable: the records of any one modification time
/// stand in it in the order in which they were given.
pub proof fn lemma_recency_order_stable(records: Seq<ArtifactRecord>, modified: i128)
    ensures
        recency_order(records).filter(|r: ArtifactRecord| r.modified == modified)
            == records.filter(|r: ArtifactRecord| r.modified == modified),
    decreases records.len(),
{
    let same = |r: ArtifactRecord| r.modified == modified;
    if records.len() == 0 {
    } else {
        let given = records.drop_last();
        let earlier = recency_order(given);
        let new = records.last();
        let at = insertion_point(earlier, new.modified);
        lemma_recency_order_stable(given, modified);
        lemma_insertion_point(earlier, new.modified);
        let head = earlier.take(at);
        let rest = earlier.skip(at);
        assert(earlier == head + rest);
        assert(earlier.insert(at, new) == head.push(new) + rest);
        Seq::filter_distributes_over_add(head, rest, same);
        Seq::filter_distributes_over_add(head.push(new), rest, same);
        head.lemma_filter_push(new, same);
        given.lemma_filter_push(new, same);
        assert(given.push(new) == records);
        if new.modified == modified {
            assert(rest.all(|x: ArtifactRecord| !same(x))) by {
                assert forall|k: int| 0 <= k < rest.len() implies !same(#[trigger] rest[k]) by {
                    assert(rest[k] == earlier[at + k]);
                }
            }
            rest.lemma_all_neg_filter_empty(same);
            assert(rest.filter(same) == Seq::<ArtifactRecord>::empty());
            assert(head.filter(same) + rest.filter(same) == head.filter(same));
            assert(head.filter(same).push(new) + rest.filter(same) == head.filter(same).push(
                new,
            ));
        }
    }
}

/// A listing names each listed entry once: it is as long as the records it
/// was made from.
pub proof fn lemma_listing_len(entries: Vec<Option<ScanEntry>>)
    ensures
        listing(DirectoryScan::Entries(entries)).len() == records_of(entries@).len(),
{
    lemma_recency_order_len(records_of(entries@));
}


/// In a listing, a path that stands before another belongs to a record that
/// is at least as recent as the record of that other.
pub proof fn lemma_listing_descends(entries: Vec<Option<ScanEntry>>, i: int, j: int)
    requires
        0 <= i <= j < listing(DirectoryScan::Entries(entries)).len(),
    ensures
        ({
            let listed = listing(DirectoryScan::Entries(entries));
            let order = recency_order(records_of(entries@));
            &&& listed[i] == order[i].path@
            &&& listed[j] == order[j].path@
            &&& order[i].modified >= order[j].modified
        }),
{
    lemma_recency_order_descends(records_of(entries@), i, j);
}

/// Whether `record` is the record of a listed entry among `entries`.
pub open spec fn comes_from(entries: Seq<Option<ScanEntry>>, record: ArtifactRecord) -> bool {
    exists|e: int|
        0 <= e < entries.len() && is_listed(#[trigger] entries[e]) && record_of(entries[e])
            == record
}

/// The records hold the listed entries and nothing else: each record is
/// that of a listed entry, and each listed entry has its record.
pub proof fn lemma_records_are_listed_entries(entries: Seq<Option<ScanEntry>>)
    ensures
        forall|r: int|
            0 <= r < records_of(entries).len() ==> comes_from(
                entries,
                #[trigger] records_of(entries)[r],
            ),
        forall|e: int|
            0 <= e < entries.len() && is_listed(#[trigger] entries[e]) ==> records_of(
                entries,
            ).contains(record_of(entries[e])),
    decreases entries.len(),
{
    if entries.len() > 0 {
        let front = entries.drop_last();
        let records = records_of(entries);
        lemma_records_are_listed_entries(front);
        assert forall|r: int| 0 <= r < records.len() implies comes_from(
            entries,
            #[trigger] records[r],
        ) by {
            if r < records_of(front).len() {
                assert(records[r] == records_of(front)[r]);
                assert(comes_from(front, records_of(front)[r]));
                let e = choose|e: int|
                    0 <= e < front.len() && is_listed(#[trigger] front[e]) && record_of(front[e])
                        == records_of(front)[r];
                assert(entries[e] == front[e]);
            } else {
                assert(is_listed(entries[entries.len() - 1]));
                assert(record_of(entries[entries.len() - 1]) == records[r]);
            }
        }
        assert forall|e: int|
            0 <= e < entries.len() && is_listed(#[trigger] entries[e]) implies records.contains(
            record_of(entries[e]),
        ) by {
            if e < front.len() {
                assert(front[e] == entries[e]);
                let r = choose|r: int|
                    0 <= r < records_of(front).len() && records_of(front)[r] == record_of(
                        front[e],
                    );
                assert(records[r] == record_of(entries[e]));
            } else {
                assert(records[records.len() - 1] == record_of(entries[e]));
            }
        }
    }
}

} // verus!
