//! The commission repository: one JSON file per commission, two levels
//! under a status root (`pendings/` for pending and in-progress work,
//! `history/` for completed work), plus the status-transition algorithm
//! that rewrites a commission into its new root and removes the file it
//! was found in.

use vstd::prelude::*;
use crate::file_storage::{commission_path, status_root, FileStorage};
use crate::records::{commission_json_text, commission_to_json, parse_commission_text,
    spec_parse_commission_text, Commission, CommissionView};
use crate::store::{entries_after_delete, entries_after_write, two_level_listing, DataStore,
    EntryV, FileData, FileDataView};
use crate::strutil::str_eq;

verus! {

/// The commissions the listed file texts hold, unreadable files skipped.
pub open spec fn parsed_commissions(prs: Seq<(Seq<char>, Seq<char>)>) -> Seq<CommissionView> {
    prs.filter_map(|pr: (Seq<char>, Seq<char>)| spec_parse_commission_text(pr.1))
}

/// The first listed file whose text reads as a commission with the id,
/// with its path.
pub open spec fn first_match(prs: Seq<(Seq<char>, Seq<char>)>, id: Seq<char>) -> Option<
    (Seq<char>, CommissionView),
>
    decreases prs.len(),
{
    if prs.len() == 0 {
        None
    } else {
        match spec_parse_commission_text(prs[0].1) {
            Some(m) => if m.id == id {
                Some((prs[0].0, m))
            } else {
                first_match(prs.skip(1), id)
            },
            None => first_match(prs.skip(1), id),
        }
    }
}

/// Whether a listed file's text reads as a commission with the id.
pub open spec fn pair_matches(pr: (Seq<char>, Seq<char>), id: Seq<char>) -> bool {
    match spec_parse_commission_text(pr.1) {
        Some(m) => m.id == id,
        None => false,
    }
}

/// A found first match is a listed pair: its path stands in the listing
/// with a text that reads as exactly the found record, and nothing before
/// it matches.
pub proof fn lemma_first_match_mem(prs: Seq<(Seq<char>, Seq<char>)>, id: Seq<char>)
    requires
        first_match(prs, id) is Some,
    ensures
        ({
            let pm = first_match(prs, id)->Some_0;
            exists|j: int|
                0 <= j < prs.len() && (#[trigger] prs[j]).0 == pm.0
                    && spec_parse_commission_text(prs[j].1) == Some(pm.1) && pm.1.id == id
        }),
    decreases prs.len(),
{
    let pm = first_match(prs, id)->Some_0;
    match spec_parse_commission_text(prs[0].1) {
        Some(m) => {
            if m.id == id {
                assert(prs[0].0 == pm.0 && spec_parse_commission_text(prs[0].1) == Some(pm.1));
            } else {
                lemma_first_match_mem(prs.skip(1), id);
                let j = choose|j: int|
                    0 <= j < prs.skip(1).len() && (#[trigger] prs.skip(1)[j]).0 == pm.0
                        && spec_parse_commission_text(prs.skip(1)[j].1) == Some(pm.1) && pm.1.id
                        == id;
                assert(prs[j + 1] == prs.skip(1)[j]);
            }
        },
        None => {
            lemma_first_match_mem(prs.skip(1), id);
            let j = choose|j: int|
                0 <= j < prs.skip(1).len() && (#[trigger] prs.skip(1)[j]).0 == pm.0
                    && spec_parse_commission_text(prs.skip(1)[j].1) == Some(pm.1) && pm.1.id
                    == id;
            assert(prs[j + 1] == prs.skip(1)[j]);
        },
    }
}

/// The commission a move writes: the found record with its status set to
/// the target and its modification time refreshed.
pub open spec fn moved_record(found: CommissionView, to: Seq<char>, now: Seq<char>)
    -> CommissionView {
    CommissionView { status: to, updated_at: now, ..found }
}

/// The store path a commission record is saved under.
pub open spec fn save_path(m: CommissionView) -> Seq<char> {
    commission_path(m.status, m.client_name, m.id, m.created_at)
}

/// The entries after a move: the rewritten record stands at its new path,
/// and the file the record was found in is gone, unless it was overwritten
/// in place by that very write.
pub open spec fn entries_after_move(
    es: Seq<EntryV>,
    oldpath: Seq<char>,
    upd: CommissionView,
) -> Seq<EntryV> {
    let es1 = entries_after_write(
        es,
        save_path(upd),
        FileDataView::Text(commission_json_text(upd)),
    );
    if oldpath == save_path(upd) {
        es1
    } else {
        entries_after_delete(es1, oldpath)
    }
}

/// CRUD and status transition of commission records over the store.
pub struct CommissionRepository;

impl CommissionRepository {
    /// Writes the commission's file under its status root, replacing any
    /// file already at that path.
    pub fn save(store: &mut DataStore, commission: &Commission) -> (r: Result<(), String>)
        requires
            old(store).wf(),
        ensures
            r is Ok,
            final(store).wf(),
            final(store).entries() == entries_after_write(
                old(store).entries(),
                save_path(commission@),
                FileDataView::Text(commission_json_text(commission@)),
            ),
            final(store).has_path(save_path(commission@)),
            final(store).data_at(save_path(commission@)) == FileDataView::Text(
                commission_json_text(commission@),
            ),
            forall|q: Seq<char>|
                q != save_path(commission@) ==> #[trigger] final(store).has_path(q) == old(
                    store,
                ).has_path(q),
            forall|q: Seq<char>|
                q != save_path(commission@) && old(store).has_path(q)
                    ==> #[trigger] final(store).data_at(q) == old(store).data_at(q),
    {
        let path = FileStorage::commission_file_path(
            commission.status.as_str(),
            commission.client_name.as_str(),
            commission.id.as_str(),
            commission.created_at.as_str(),
        );
        let text = commission_to_json(commission);
        store.write(path, FileData::Text(text));
        Ok(())
    }

    /// Reads every commission under the status root of `status`, skipping
    /// files that cannot be read as commission records.
    pub fn find_by_status(store: &DataStore, status: &str) -> (r: Result<Vec<Commission>, String>)
        requires
            store.wf(),
        ensures
            r is Ok,
            match r {
                Ok(ms) => ms@.map_values(|m: Commission| m@) == parsed_commissions(
                    two_level_listing(store.entries(), status_root(status@)),
                ),
                Err(_) => false,
            },
    {
        let root = FileStorage::status_root_folder(status);
        let pairs = store.json_files_two_level(root.as_str());
        let ghost prs = pairs@.map_values(|pr: (String, String)| (pr.0@, pr.1@));
        let ghost f = |pr: (Seq<char>, Seq<char>)| spec_parse_commission_text(pr.1);
        let mut out: Vec<Commission> = Vec::new();
        assert(out@.map_values(|m: Commission| m@) =~= prs.take(0).filter_map(f)) by {
            assert(prs.take(0) =~= Seq::<(Seq<char>, Seq<char>)>::empty());
            assert(Seq::<(Seq<char>, Seq<char>)>::empty().filter_map(f) =~= Seq::<
                CommissionView,
            >::empty());
        }
        let mut i: usize = 0;
        while i < pairs.len()
            invariant
                i <= pairs@.len(),
                prs == pairs@.map_values(|pr: (String, String)| (pr.0@, pr.1@)),
                f == (|pr: (Seq<char>, Seq<char>)| spec_parse_commission_text(pr.1)),
                out@.map_values(|m: Commission| m@) == prs.take(i as int).filter_map(f),
            decreases pairs@.len() - i,
        {
            proof {
                assert(prs[i as int] == (pairs@[i as int].0@, pairs@[i as int].1@));
            }
            match parse_commission_text(pairs[i].1.as_str()) {
                Ok(m) => {
                    out.push(m);
                },
                Err(_) => {},
            }
            proof {
                prs.lemma_filter_map_take_succ(f, i as int);
            }
            assert(out@.map_values(|m: Commission| m@) =~= prs.take(i + 1).filter_map(f));
            i += 1;
        }
        assert(prs.take(prs.len() as int) =~= prs);
        Ok(out)
    }

    /// Finds the first file under the status root whose record carries the
    /// id, as the file's path and the record.
    #[verifier::rlimit(60)]
    fn find_first_in_root(store: &DataStore, root: &str, commission_id: &str) -> (r: Option<
        (String, Commission),
    >)
        requires
            store.wf(),
        ensures
            match r {
                Some(pm) => first_match(two_level_listing(store.entries(), root@), commission_id@)
                    == Some((pm.0@, pm.1@)),
                None => first_match(two_level_listing(store.entries(), root@), commission_id@)
                    is None,
            },
    {
        let pairs = store.json_files_two_level(root);
        let ghost prs = pairs@.map_values(|pr: (String, String)| (pr.0@, pr.1@));
        proof {
            assert(prs.skip(0) =~= prs);
        }
        let mut i: usize = 0;
        while i < pairs.len()
            invariant
                i <= pairs@.len(),
                prs == pairs@.map_values(|pr: (String, String)| (pr.0@, pr.1@)),
                prs == two_level_listing(store.entries(), root@),
                first_match(prs, commission_id@) == first_match(
                    prs.skip(i as int),
                    commission_id@,
                ),
            decreases pairs@.len() - i,
        {
            proof {
                assert(prs.skip(i as int)[0] == prs[i as int]);
                assert(prs[i as int] == (pairs@[i as int].0@, pairs@[i as int].1@));
                assert(prs.skip(i as int).skip(1) =~= prs.skip(i + 1));
            }
            match parse_commission_text(pairs[i].1.as_str()) {
                Ok(m) => {
                    if str_eq(m.id.as_str(), commission_id) {
                        proof {
                            assert(spec_parse_commission_text(prs.skip(i as int)[0].1) == Some(
                                m@,
                            ));
                            assert(first_match(prs.skip(i as int), commission_id@) == Some(
                                (prs[i as int].0, m@),
                            ));
                        }
                        let path = pairs[i].0.clone();
                        return Some((path, m));
                    }
                },
                Err(_) => {},
            }
            i += 1;
        }
        assert(prs.skip(prs.len() as int).len() == 0);
        None
    }

    /// Moves the commission with the id from one status to the other: the
    /// first record found under the old root is rewritten with the new
    /// status and the given current time, saved under its new path, and
    /// the file it was found in is removed when that write did not already
    /// replace it in place. An id with no record under the old root is an
    /// error, and the store is unchanged.
    pub fn move_commission(
        store: &mut DataStore,
        commission_id: &str,
        from_status: &str,
        to_status: &str,
        now: &str,
    ) -> (r: Result<(), String>)
        requires
            old(store).wf(),
        ensures
            final(store).wf(),
            match first_match(
                two_level_listing(old(store).entries(), status_root(from_status@)),
                commission_id@,
            ) {
                Some(pm) => r is Ok && final(store).entries() == entries_after_move(
                    old(store).entries(),
                    pm.0,
                    moved_record(pm.1, to_status@, now@),
                ),
                None => r is Err && final(store).entries() == old(store).entries(),
            },
    {
        let root = FileStorage::status_root_folder(from_status);
        let found = match Self::find_first_in_root(store, root.as_str(), commission_id) {
            Some(pm) => pm,
            None => {
                return Err(
                    "Commission ".to_owned().concat(commission_id).concat(
                        " not found in ",
                    ).concat(from_status).concat(" folder"),
                );
            },
        };
        let old_path = found.0;
        let mut updated = found.1;
        updated.status = to_status.to_owned();
        updated.updated_at = now.to_owned();
        let new_path = FileStorage::commission_file_path(
            updated.status.as_str(),
            updated.client_name.as_str(),
            updated.id.as_str(),
            updated.created_at.as_str(),
        );
        let text = commission_to_json(&updated);
        store.write(new_path.clone(), FileData::Text(text));
        if !str_eq(old_path.as_str(), new_path.as_str()) {
            store.delete(old_path.as_str());
        }
        Ok(())
    }

    /// Deletes the first file under the status root whose record carries
    /// the id; an id with no record there is an error, and the store is
    /// unchanged.
    pub fn delete_by_id_and_status(
        store: &mut DataStore,
        commission_id: &str,
        status: &str,
    ) -> (r: Result<(), String>)
        requires
            old(store).wf(),
        ensures
            final(store).wf(),
            match first_match(
                two_level_listing(old(store).entries(), status_root(status@)),
                commission_id@,
            ) {
                Some(pm) => r is Ok && final(store).entries() == entries_after_delete(
                    old(store).entries(),
                    pm.0,
                ) && !final(store).has_path(pm.0) && (forall|q: Seq<char>|
                    q != pm.0 ==> #[trigger] final(store).has_path(q) == old(store).has_path(q))
                    && (forall|q: Seq<char>|
                    q != pm.0 && old(store).has_path(q) ==> #[trigger] final(store).data_at(q)
                        == old(store).data_at(q)),
                None => r is Err && final(store).entries() == old(store).entries(),
            },
    {
        let root = FileStorage::status_root_folder(status);
        match Self::find_first_in_root(store, root.as_str(), commission_id) {
            Some(pm) => {
                store.delete(pm.0.as_str());
                Ok(())
            },
            None => Err("Commission not found".to_owned()),
        }
    }
}

} // verus!
