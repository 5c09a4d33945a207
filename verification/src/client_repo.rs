//! The client repository: one JSON file per client under `clients/`, keyed
//! by id. Saving is an upsert; looking up or deleting an absent id reports
//! absence and never errors; listing skips unreadable files.

use vstd::prelude::*;
use crate::file_storage::{client_path, FileStorage};
use crate::records::{client_json_text, client_to_json, parse_client_text, spec_parse_client_text,
    Client, ClientView};
use crate::store::{entries_after_delete, entries_after_write, json_listing, DataStore, EntryV,
    FileData, FileDataView};

verus! {

/// What looking a client id up in the stored entries yields: absent, a
/// record, or a file that cannot be read as a client record.
pub open spec fn client_lookup_in(es: Seq<EntryV>, id: Seq<char>) -> Option<Option<ClientView>> {
    if !crate::store::has_path_in(es, client_path(id)) {
        Some(None)
    } else {
        match crate::store::data_in(es, client_path(id)) {
            FileDataView::Text(t) => match spec_parse_client_text(t) {
                Some(c) => Some(Some(c)),
                None => None,
            },
            FileDataView::Bin(_) => None,
        }
    }
}

/// The clients the listed file texts hold, unreadable files skipped.
pub open spec fn parsed_clients(prs: Seq<(Seq<char>, Seq<char>)>) -> Seq<ClientView> {
    prs.filter_map(|pr: (Seq<char>, Seq<char>)| spec_parse_client_text(pr.1))
}

/// CRUD of client records over the store.
pub struct ClientRepository;

impl ClientRepository {
    /// Writes the client's file at `clients/{id}.json`, replacing any
    /// earlier record with that id.
    pub fn save(store: &mut DataStore, client: &Client) -> (r: Result<(), String>)
        requires
            old(store).wf(),
        ensures
            r is Ok,
            final(store).wf(),
            final(store).entries() == entries_after_write(
                old(store).entries(),
                client_path(client.id@),
                FileDataView::Text(client_json_text(client@)),
            ),
            final(store).has_path(client_path(client.id@)),
            final(store).data_at(client_path(client.id@)) == FileDataView::Text(
                client_json_text(client@),
            ),
            forall|q: Seq<char>|
                q != client_path(client.id@) ==> #[trigger] final(store).has_path(q) == old(
                    store,
                ).has_path(q),
            forall|q: Seq<char>|
                q != client_path(client.id@) && old(store).has_path(q)
                    ==> #[trigger] final(store).data_at(q) == old(store).data_at(q),
    {
        let path = FileStorage::client_file_path(client.id.as_str());
        let text = client_to_json(client);
        store.write(path, FileData::Text(text));
        Ok(())
    }

    /// Reads the client with the id: absent files report `None`, a file
    /// that cannot be read as a client record reports the error.
    pub fn find_by_id(store: &DataStore, client_id: &str) -> (r: Result<Option<Client>, String>)
        requires
            store.wf(),
        ensures
            match r {
                Ok(Some(c)) => client_lookup_in(store.entries(), client_id@) == Some(Some(c@)),
                Ok(None) => client_lookup_in(store.entries(), client_id@) == Some(
                    None::<ClientView>,
                ),
                Err(_) => client_lookup_in(store.entries(), client_id@) is None,
            },
    {
        let path = FileStorage::client_file_path(client_id);
        match store.read(path.as_str()) {
            None => Ok(None),
            Some(FileData::Text(t)) => {
                let text = t.clone();
                match parse_client_text(text.as_str()) {
                    Ok(c) => Ok(Some(c)),
                    Err(e) => Err(e),
                }
            },
            Some(FileData::Bin(_)) => Err("Failed to read client file".to_owned()),
        }
    }

    /// Reads every client under `clients/`, skipping files that cannot be
    /// read as client records.
    pub fn find_all(store: &DataStore) -> (r: Result<Vec<Client>, String>)
        requires
            store.wf(),
        ensures
            r is Ok,
            match r {
                Ok(cs) => cs@.map_values(|c: Client| c@) == parsed_clients(
                    json_listing(store.entries(), "clients"@),
                ),
                Err(_) => false,
            },
    {
        let pairs = store.json_files_in("clients");
        let ghost prs = pairs@.map_values(|pr: (String, String)| (pr.0@, pr.1@));
        let ghost f = |pr: (Seq<char>, Seq<char>)| spec_parse_client_text(pr.1);
        let mut out: Vec<Client> = Vec::new();
        assert(out@.map_values(|c: Client| c@) =~= prs.take(0).filter_map(f)) by {
            assert(prs.take(0) =~= Seq::<(Seq<char>, Seq<char>)>::empty());
            assert(Seq::<(Seq<char>, Seq<char>)>::empty().filter_map(f) =~= Seq::<
                ClientView,
            >::empty());
        }
        let mut i: usize = 0;
        while i < pairs.len()
            invariant
                i <= pairs@.len(),
                prs == pairs@.map_values(|pr: (String, String)| (pr.0@, pr.1@)),
                f == (|pr: (Seq<char>, Seq<char>)| spec_parse_client_text(pr.1)),
                out@.map_values(|c: Client| c@) == prs.take(i as int).filter_map(f),
            decreases pairs@.len() - i,
        {
            proof {
                assert(prs[i as int] == (pairs@[i as int].0@, pairs@[i as int].1@));
            }
            match parse_client_text(pairs[i].1.as_str()) {
                Ok(c) => {
                    out.push(c);
                },
                Err(_) => {},
            }
            proof {
                prs.lemma_filter_map_take_succ(f, i as int);
            }
            assert(out@.map_values(|c: Client| c@) =~= prs.take(i + 1).filter_map(f));
            i += 1;
        }
        assert(prs.take(prs.len() as int) =~= prs);
        Ok(out)
    }

    /// Deletes the client's file; deleting an absent id changes nothing
    /// and is not an error.
    pub fn delete(store: &mut DataStore, client_id: &str) -> (r: Result<(), String>)
        requires
            old(store).wf(),
        ensures
            r is Ok,
            final(store).wf(),
            final(store).entries() == entries_after_delete(
                old(store).entries(),
                client_path(client_id@),
            ),
            !final(store).has_path(client_path(client_id@)),
            forall|q: Seq<char>|
                q != client_path(client_id@) ==> #[trigger] final(store).has_path(q) == old(
                    store,
                ).has_path(q),
            forall|q: Seq<char>|
                q != client_path(client_id@) && old(store).has_path(q)
                    ==> #[trigger] final(store).data_at(q) == old(store).data_at(q),
    {
        let path = FileStorage::client_file_path(client_id);
        store.delete(path.as_str());
        Ok(())
    }
}

} // verus!
