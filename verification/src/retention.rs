use crate::calendar::{date_le, is_calendar_date, DateView};
use crate::config::BackupWardenConfig;
use crate::labels::{date_text, lemma_date_names_sort_by_date};
use crate::names::{
    lemma_name_le_total, lemma_name_le_transitive, lemma_name_order_total, name_le, name_order,
    name_precedes, texts,
};
use vstd::prelude::*;
use vstd::relations::sorted_by;
use vstd::seq_lib::{lemma_sorted_unique, to_multiset_build, to_multiset_insert, to_multiset_len};

verus! {

/// One entry of a location's daily-backup namespace, as a listing reports it.
#[derive(Debug, PartialEq, Eq)]
pub struct FolderEntry {
    /// The entry's file name, without any directory in front.
    pub name: String,
    /// Whether the entry is a directory.
    pub is_dir: bool,
}

/// The names of the directories in a listing, in listing order. Entries that are
/// not directories do not count as dated folders.
pub open spec fn dated_folders(entries: Seq<FolderEntry>) -> Seq<Seq<char>>
    decreases entries.len(),
{
    if entries.len() == 0 {
        Seq::empty()
    } else {
        let earlier = dated_folders(entries.drop_last());
        if entries.last().is_dir {
            earlier.push(entries.last().name@)
        } else {
            earlier
        }
    }
}

/// The dated folders of a listing, oldest first. Folder names are dates in a
/// fixed format, so ascending name order is chronological order.
pub open spec fn folders_by_age(entries: Seq<FolderEntry>) -> Seq<Seq<char>> {
    dated_folders(entries).sort_by(name_order())
}

/// How many folders a retention pass removes from `count` folders.
pub open spec fn excess(count: nat, retention: nat) -> nat {
    if count > retention {
        (count - retention) as nat
    } else {
        0
    }
}

/// The folders that a retention pass removes: the oldest ones beyond the limit.
pub open spec fn expired_folders(entries: Seq<FolderEntry>, retention: nat) -> Seq<Seq<char>> {
    let by_age = folders_by_age(entries);
    by_age.take(excess(by_age.len(), retention) as int)
}

/// The folders that a retention pass leaves in place.
pub open spec fn retained_folders(entries: Seq<FolderEntry>, retention: nat) -> Seq<Seq<char>> {
    let by_age = folders_by_age(entries);
    by_age.skip(excess(by_age.len(), retention) as int)
}

/// Sorting rearranges the dated folders of a listing and neither adds nor drops one.
pub proof fn lemma_folders_by_age(entries: Seq<FolderEntry>)
    ensures
        sorted_by(folders_by_age(entries), name_order()),
        folders_by_age(entries).to_multiset() == dated_folders(entries).to_multiset(),
        folders_by_age(entries).len() == dated_folders(entries).len(),
{
    lemma_name_order_total();
    dated_folders(entries).lemma_sort_by_ensures(name_order());
    to_multiset_len(folders_by_age(entries));
    to_multiset_len(dated_folders(entries));
}

/// A retention pass over `k` dated folders with limit `r` removes exactly
/// `k - r` of them when `k > r` and none otherwise; what it removes and what it
/// keeps are together the folders that were there; at most `r` remain; and every
/// folder that remains is at least as recent as every folder removed, so the
/// survivors are the greatest names of the listing.
pub proof fn lemma_retention_keeps_most_recent(entries: Seq<FolderEntry>, retention: nat)
    ensures
        ({
            let all = dated_folders(entries);
            let gone = expired_folders(entries, retention);
            let kept = retained_folders(entries, retention);
            &&& all.len() > retention ==> gone.len() == all.len() - retention && kept.len()
                == retention
            &&& all.len() <= retention ==> gone.len() == 0 && kept.len() == all.len()
            &&& kept.len() <= retention
            &&& (gone + kept).to_multiset() == all.to_multiset()
            &&& sorted_by(gone + kept, name_order())
            &&& forall|i: int, j: int|
                0 <= i < gone.len() && 0 <= j < kept.len() ==> name_le(
                    #[trigger] gone[i],
                    #[trigger] kept[j],
                )
        }),
{
    lemma_folders_by_age(entries);
    let by_age = folders_by_age(entries);
    let cut = excess(by_age.len(), retention) as int;
    let gone = expired_folders(entries, retention);
    let kept = retained_folders(entries, retention);
    assert(gone + kept =~= by_age);
    assert forall|i: int, j: int| 0 <= i < gone.len() && 0 <= j < kept.len() implies name_le(
        #[trigger] gone[i],
        #[trigger] kept[j],
    ) by {
        assert(name_order()(by_age[i], by_age[cut + j]));
    }
}

/// Where folders are named after days of the years 0 to 9999, a retention pass
/// removes no day that is later than a day it keeps.
pub proof fn lemma_retention_keeps_latest_days(
    entries: Seq<FolderEntry>,
    retention: nat,
    removed: DateView,
    kept: DateView,
)
    requires
        is_calendar_date(removed),
        is_calendar_date(kept),
        0 <= removed.year <= 9999,
        0 <= kept.year <= 9999,
        expired_folders(entries, retention).contains(date_text(removed)),
        retained_folders(entries, retention).contains(date_text(kept)),
    ensures
        date_le(removed, kept),
{
    lemma_retention_keeps_most_recent(entries, retention);
    lemma_date_names_sort_by_date(removed, kept);
    let gone = expired_folders(entries, retention);
    let stay = retained_folders(entries, retention);
    let i = choose|i: int| 0 <= i < gone.len() && gone[i] == date_text(removed);
    let j = choose|j: int| 0 <= j < stay.len() && stay[j] == date_text(kept);
    assert(name_le(gone[i], stay[j]));
}

/// The names of the directories in `entries`, sorted ascending.
pub fn sorted_folder_names(entries: &Vec<FolderEntry>) -> (sorted: Vec<String>)
    ensures
        texts(sorted@) == folders_by_age(entries@),
{
    let mut sorted: Vec<String> = Vec::new();
    let mut i: usize = 0;
    proof {
        assert(entries@.take(0) =~= Seq::<FolderEntry>::empty());
        assert(texts(sorted@) =~= Seq::<Seq<char>>::empty());
    }
    while i < entries.len()
        invariant
            i <= entries.len(),
            sorted_by(texts(sorted@), name_order()),
            texts(sorted@).to_multiset() == dated_folders(entries@.take(i as int)).to_multiset(),
        decreases entries.len() - i,
    {
        proof {
            assert(entries@.take(i as int + 1).drop_last() =~= entries@.take(i as int));
        }
        if entries[i].is_dir {
            let name: String = entries[i].name.clone();
            let mut at: usize = 0;
            while at < sorted.len() && name_precedes(sorted[at].as_str(), name.as_str())
                invariant
                    at <= sorted.len(),
                    forall|k: int| 0 <= k < at ==> name_le(#[trigger] sorted@[k]@, name@),
                decreases sorted.len() - at,
            {
                at = at + 1;
            }
            let ghost before = sorted@;
            sorted.insert(at, name);
            proof {
                let old_names = texts(before);
                let new_names = texts(sorted@);
                assert(new_names =~= old_names.insert(at as int, name@));
                to_multiset_insert(old_names, at as int, name@);
                to_multiset_build(dated_folders(entries@.take(i as int)), name@);
                assert forall|p: int, q: int| 0 <= p < q < new_names.len() implies name_order()(
                    new_names[p],
                    new_names[q],
                ) by {
                    if q < at {
                        assert(name_order()(old_names[p], old_names[q]));
                    } else if q == at {
                        assert(name_le(before[p]@, name@));
                    } else if p < at {
                        assert(name_order()(old_names[p], old_names[q - 1]));
                    } else {
                        lemma_name_le_total(old_names[at as int], name@);
                        if p > at {
                            assert(name_order()(old_names[p - 1], old_names[q - 1]));
                        } else if q - 1 > at {
                            assert(name_order()(old_names[at as int], old_names[q - 1]));
                            lemma_name_le_transitive(
                                name@,
                                old_names[at as int],
                                old_names[q - 1],
                            );
                        }
                    }
                }
            }
        }
        i = i + 1;
    }
    proof {
        assert(entries@.take(i as int) =~= entries@);
        lemma_folders_by_age(entries@);
        lemma_name_order_total();
        lemma_sorted_unique(texts(sorted@), folders_by_age(entries@), name_order());
    }
    sorted
}

/// Retention pruning for one location: given the listing of its daily-backup
/// namespace, the names of the dated folders to delete, oldest first.
pub fn cleanup_old_backups(config: &BackupWardenConfig, entries: &Vec<FolderEntry>) -> (doomed:
    Vec<String>)
    ensures
        texts(doomed@) == expired_folders(entries@, config.retention_days as nat),
{
    let mut folders = sorted_folder_names(entries);
    if folders.len() > config.retention_days {
        let surplus: usize = folders.len() - config.retention_days;
        folders.truncate(surplus);
        proof {
            assert(texts(folders@) =~= folders_by_age(entries@).take(surplus as int));
        }
        folders
    } else {
        let none: Vec<String> = Vec::new();
        proof {
            assert(texts(none@) =~= folders_by_age(entries@).take(0));
        }
        none
    }
}

} // verus!
