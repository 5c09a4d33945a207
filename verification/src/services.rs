//! The service layer: every externally supplied field is validated before a
//! repository touches the store, and a failed check leaves the store
//! untouched. Repositories below this layer never re-validate.

use vstd::prelude::*;
use crate::client_repo::{client_lookup_in, parsed_clients, ClientRepository};
use crate::commission_repo::{entries_after_move, first_match, moved_record, parsed_commissions,
    CommissionRepository};
use crate::file_storage::{client_path, status_root};
use crate::records::{client_json_text, commission_json_text, Client, ClientView, Commission,
    CommissionView};
use crate::store::{entries_after_delete, entries_after_write, json_listing, two_level_listing,
    DataStore, FileDataView};
use crate::validation::{valid_contact, valid_description, valid_email, valid_id,
    valid_image_path, valid_name, valid_price, valid_status, valid_payment_status,
    ValidationService};

verus! {

/// Every field of a client record passes its check, the non-empty
/// timestamps included.
pub open spec fn client_fields_valid(c: ClientView) -> bool {
    &&& valid_id(c.id)
    &&& valid_name(c.name)
    &&& valid_email(c.email)
    &&& valid_contact(c.contact)
    &&& c.created_at.len() > 0
    &&& c.updated_at.len() > 0
}

/// Every field of a commission record passes its check, the non-empty
/// timestamps included; the image list is checked separately.
pub open spec fn commission_fields_valid(m: CommissionView) -> bool {
    &&& valid_id(m.id)
    &&& valid_id(m.client_id)
    &&& valid_name(m.client_name)
    &&& valid_name(m.title)
    &&& valid_description(m.description)
    &&& valid_price(m.price_cents)
    &&& valid_payment_status(m.payment_status)
    &&& valid_status(m.status)
    &&& m.created_at.len() > 0
    &&& m.updated_at.len() > 0
}

/// The image references that are kept: the empty ones are dropped.
pub open spec fn kept_images(images: Seq<Seq<char>>) -> Seq<Seq<char>> {
    images.filter(|s: Seq<char>| s.len() > 0)
}

/// Every kept image reference passes the image path check.
pub open spec fn images_valid(images: Seq<Seq<char>>) -> bool {
    forall|i: int| 0 <= i < images.len() ==> valid_image_path(#[trigger] images[i])
}

/// The commission as it is stored: the same record with only the kept
/// image references.
pub open spec fn sanitized_commission(m: CommissionView) -> CommissionView {
    CommissionView { images: kept_images(m.images), ..m }
}

/// What a validated move with the timestamp `now` does to the stored
/// entries, and whether it succeeds.
pub open spec fn move_outcome(
    es0: Seq<crate::store::EntryV>,
    es1: Seq<crate::store::EntryV>,
    id: Seq<char>,
    from: Seq<char>,
    to: Seq<char>,
    now: Seq<char>,
    ok: bool,
) -> bool {
    if !(valid_id(id) && valid_status(from) && valid_status(to)) {
        !ok && es1 == es0
    } else {
        match first_match(two_level_listing(es0, status_root(from)), id) {
            Some(pm) => ok && es1 == entries_after_move(es0, pm.0, moved_record(pm.1, to, now)),
            None => !ok && es1 == es0,
        }
    }
}

/// Validated client operations.
pub struct ClientService;

impl ClientService {
    /// Validates every field, then saves the client; a failed check leaves
    /// the store untouched.
    pub fn create_client(store: &mut DataStore, client: &Client) -> (r: Result<(), String>)
        requires
            old(store).wf(),
        ensures
            final(store).wf(),
            r is Ok <==> client_fields_valid(client@),
            r is Ok ==> final(store).entries() == entries_after_write(
                old(store).entries(),
                client_path(client.id@),
                FileDataView::Text(client_json_text(client@)),
            ),
            r is Err ==> final(store).entries() == old(store).entries(),
    {
        match ValidationService::validate_id(client.id.as_str()) {
            Ok(_) => {},
            Err(e) => {
                return Err(e);
            },
        }
        match ValidationService::validate_name(client.name.as_str(), "Client name") {
            Ok(_) => {},
            Err(e) => {
                return Err(e);
            },
        }
        match ValidationService::validate_email(client.email.as_str()) {
            Ok(_) => {},
            Err(e) => {
                return Err(e);
            },
        }
        match ValidationService::validate_contact(client.contact.as_str()) {
            Ok(_) => {},
            Err(e) => {
                return Err(e);
            },
        }
        if client.created_at.as_str().unicode_len() == 0 || client.updated_at.as_str().unicode_len()
            == 0 {
            return Err("Timestamps cannot be empty".to_owned());
        }
        ClientRepository::save(store, client)
    }

    /// Validates the id, then looks the client up.
    pub fn get_client_by_id(store: &DataStore, client_id: &str) -> (r: Result<
        Option<Client>,
        String,
    >)
        requires
            store.wf(),
        ensures
            !valid_id(client_id@) ==> r is Err,
            valid_id(client_id@) ==> match r {
                Ok(Some(c)) => client_lookup_in(store.entries(), client_id@) == Some(Some(c@)),
                Ok(None) => client_lookup_in(store.entries(), client_id@) == Some(
                    None::<ClientView>,
                ),
                Err(_) => client_lookup_in(store.entries(), client_id@) is None,
            },
    {
        match ValidationService::validate_id(client_id) {
            Ok(_) => {},
            Err(e) => {
                return Err(e);
            },
        }
        ClientRepository::find_by_id(store, client_id)
    }

    /// Lists every stored client, unreadable files skipped.
    pub fn get_all_clients(store: &DataStore) -> (r: Result<Vec<Client>, String>)
        requires
            store.wf(),
        ensures
            match r {
                Ok(cs) => cs@.map_values(|c: Client| c@) == parsed_clients(
                    json_listing(store.entries(), "clients"@),
                ),
                Err(_) => false,
            },
    {
        ClientRepository::find_all(store)
    }

    /// Validates the id, then deletes the client's file; an absent id is
    /// not an error.
    pub fn delete_client(store: &mut DataStore, client_id: &str) -> (r: Result<(), String>)
        requires
            old(store).wf(),
        ensures
            final(store).wf(),
            r is Ok <==> valid_id(client_id@),
            r is Ok ==> final(store).entries() == entries_after_delete(
                old(store).entries(),
                client_path(client_id@),
            ) && !final(store).has_path(client_path(client_id@)),
            r is Err ==> final(store).entries() == old(store).entries(),
    {
        match ValidationService::validate_id(client_id) {
            Ok(_) => {},
            Err(e) => {
                return Err(e);
            },
        }
        ClientRepository::delete(store, client_id)
    }
}

/// Validated commission operations.
pub struct CommissionService;

impl CommissionService {
    /// Validates every field and every non-empty image reference, then
    /// saves the commission with only those references; a failed check
    /// leaves the store untouched.
    #[verifier::loop_isolation(false)]
    pub fn create_commission(store: &mut DataStore, commission: &Commission) -> (r: Result<
        (),
        String,
    >)
        requires
            old(store).wf(),
        ensures
            final(store).wf(),
            r is Ok <==> commission_fields_valid(commission@) && images_valid(
                kept_images(commission@.images),
            ),
            r is Ok ==> final(store).entries() == entries_after_write(
                old(store).entries(),
                crate::commission_repo::save_path(sanitized_commission(commission@)),
                FileDataView::Text(commission_json_text(sanitized_commission(commission@))),
            ),
            r is Err ==> final(store).entries() == old(store).entries(),
    {
        match ValidationService::validate_id(commission.id.as_str()) {
            Ok(_) => {},
            Err(e) => {
                return Err(e);
            },
        }
        match ValidationService::validate_id(commission.client_id.as_str()) {
            Ok(_) => {},
            Err(e) => {
                return Err(e);
            },
        }
        match ValidationService::validate_name(commission.client_name.as_str(), "Client name") {
            Ok(_) => {},
            Err(e) => {
                return Err(e);
            },
        }
        match ValidationService::validate_name(commission.title.as_str(), "Commission title") {
            Ok(_) => {},
            Err(e) => {
                return Err(e);
            },
        }
        match ValidationService::validate_description(commission.description.as_str()) {
            Ok(_) => {},
            Err(e) => {
                return Err(e);
            },
        }
        match ValidationService::validate_price_cents(commission.price_cents) {
            Ok(_) => {},
            Err(e) => {
                return Err(e);
            },
        }
        match ValidationService::validate_payment_status(commission.payment_status.as_str()) {
            Ok(_) => {},
            Err(e) => {
                return Err(e);
            },
        }
        match ValidationService::validate_status(commission.status.as_str()) {
            Ok(_) => {},
            Err(e) => {
                return Err(e);
            },
        }
        if commission.created_at.as_str().unicode_len() == 0
            || commission.updated_at.as_str().unicode_len() == 0 {
            return Err("Timestamps cannot be empty".to_owned());
        }
        // Drop empty image references, then check the rest.
        let ghost imgs = commission.images@.map_values(|s: String| s@);
        let ghost keep = |s: Seq<char>| s.len() > 0;
        let mut kept: Vec<String> = Vec::new();
        assert(kept@.map_values(|s: String| s@) =~= imgs.take(0).filter(keep)) by {
            assert(imgs.take(0) =~= Seq::<Seq<char>>::empty());
        }
        let mut i: usize = 0;
        while i < commission.images.len()
            invariant
                i <= commission.images@.len(),
                imgs == commission.images@.map_values(|s: String| s@),
                keep == (|s: Seq<char>| s.len() > 0),
                kept@.map_values(|s: String| s@) == imgs.take(i as int).filter(keep),
            decreases commission.images@.len() - i,
        {
            proof {
                assert(imgs[i as int] == commission.images@[i as int]@);
            }
            if commission.images[i].as_str().unicode_len() > 0 {
                kept.push(commission.images[i].clone());
            }
            proof {
                assert(imgs.take(i + 1) =~= imgs.take(i as int).push(imgs[i as int]));
                imgs.take(i as int).lemma_filter_push(imgs[i as int], keep);
            }
            assert(kept@.map_values(|s: String| s@) =~= imgs.take(i + 1).filter(keep));
            i += 1;
        }
        assert(imgs.take(imgs.len() as int) =~= imgs);
        assert(kept@.map_values(|s: String| s@) == kept_images(commission@.images));
        // Validate every kept reference.
        let ghost keptv = kept@.map_values(|s: String| s@);
        let mut j: usize = 0;
        while j < kept.len()
            invariant
                j <= kept@.len(),
                keptv == kept@.map_values(|s: String| s@),
                forall|k: int| 0 <= k < j ==> valid_image_path(#[trigger] keptv[k]),
            decreases kept@.len() - j,
        {
            proof {
                assert(keptv[j as int] == kept@[j as int]@);
            }
            match ValidationService::validate_image_path(kept[j].as_str()) {
                Ok(_) => {},
                Err(e) => {
                    assert(!valid_image_path(keptv[j as int]));
                    return Err(e);
                },
            }
            j += 1;
        }
        let validated = Commission {
            id: commission.id.clone(),
            client_id: commission.client_id.clone(),
            client_name: commission.client_name.clone(),
            title: commission.title.clone(),
            description: commission.description.clone(),
            price_cents: commission.price_cents,
            payment_status: commission.payment_status.clone(),
            status: commission.status.clone(),
            created_at: commission.created_at.clone(),
            updated_at: commission.updated_at.clone(),
            images: kept,
        };
        assert(validated@ == sanitized_commission(commission@));
        CommissionRepository::save(store, &validated)
    }

    /// Validates the status, then lists every commission under its root.
    pub fn get_commissions_by_status(store: &DataStore, status: &str) -> (r: Result<
        Vec<Commission>,
        String,
    >)
        requires
            store.wf(),
        ensures
            r is Ok <==> valid_status(status@),
            match r {
                Ok(ms) => ms@.map_values(|m: Commission| m@) == parsed_commissions(
                    two_level_listing(store.entries(), status_root(status@)),
                ),
                Err(_) => !valid_status(status@),
            },
    {
        match ValidationService::validate_status(status) {
            Ok(_) => {},
            Err(e) => {
                return Err(e);
            },
        }
        CommissionRepository::find_by_status(store, status)
    }

    /// Validates the id and both statuses, then moves the commission; a
    /// failed check or an id with no record under the old root leaves the
    /// store untouched.
    pub fn move_commission(
        store: &mut DataStore,
        commission_id: &str,
        from_status: &str,
        to_status: &str,
        now: &str,
    ) -> (r: Result<(), String>)
        requires
            old(store).wf(),
        ensures
            final(store).wf(),
            !(valid_id(commission_id@) && valid_status(from_status@) && valid_status(to_status@))
                ==> r is Err && final(store).entries() == old(store).entries(),
            valid_id(commission_id@) && valid_status(from_status@) && valid_status(to_status@)
                ==> match first_match(
                two_level_listing(old(store).entries(), status_root(from_status@)),
                commission_id@,
            ) {
                Some(pm) => r is Ok && final(store).entries() == entries_after_move(
                    old(store).entries(),
                    pm.0,
                    moved_record(pm.1, to_status@, now@),
                ),
                None => r is Err && final(store).entries() == old(store).entries(),
            },
    {
        match ValidationService::validate_id(commission_id) {
            Ok(_) => {},
            Err(e) => {
                return Err(e);
            },
        }
        match ValidationService::validate_status(from_status) {
            Ok(_) => {},
            Err(e) => {
                return Err(e);
            },
        }
        match ValidationService::validate_status(to_status) {
            Ok(_) => {},
            Err(e) => {
                return Err(e);
            },
        }
        CommissionRepository::move_commission(store, commission_id, from_status, to_status, now)
    }

    /// Moves the commission, stamping it with the current wall-clock time.
    /// Some non-empty timestamp was used; which one depends on the clock.
    pub fn move_commission_at_current_time(
        store: &mut DataStore,
        commission_id: &str,
        from_status: &str,
        to_status: &str,
    ) -> (r: Result<(), String>)
        requires
            old(store).wf(),
        ensures
            final(store).wf(),
            exists|now: Seq<char>|
                now.len() > 0 && #[trigger] move_outcome(
                    old(store).entries(),
                    final(store).entries(),
                    commission_id@,
                    from_status@,
                    to_status@,
                    now,
                    r is Ok,
                ),
    {
        let now = current_timestamp_rfc3339();
        let r = Self::move_commission(store, commission_id, from_status, to_status, now.as_str());
        proof {
            assert(move_outcome(
                old(store).entries(),
                store.entries(),
                commission_id@,
                from_status@,
                to_status@,
                now@,
                r is Ok,
            ));
        }
        r
    }

    /// Validates the id and status, then deletes the first file under the
    /// status root whose record carries the id; a failed check or an
    /// absent id leaves the store untouched.
    pub fn delete_commission(store: &mut DataStore, commission_id: &str, status: &str) -> (r:
        Result<(), String>)
        requires
            old(store).wf(),
        ensures
            final(store).wf(),
            !(valid_id(commission_id@) && valid_status(status@)) ==> r is Err
                && final(store).entries() == old(store).entries(),
            valid_id(commission_id@) && valid_status(status@) ==> match first_match(
                two_level_listing(old(store).entries(), status_root(status@)),
                commission_id@,
            ) {
                Some(pm) => r is Ok && final(store).entries() == entries_after_delete(
                    old(store).entries(),
                    pm.0,
                ),
                None => r is Err && final(store).entries() == old(store).entries(),
            },
    {
        match ValidationService::validate_id(commission_id) {
            Ok(_) => {},
            Err(e) => {
                return Err(e);
            },
        }
        match ValidationService::validate_status(status) {
            Ok(_) => {},
            Err(e) => {
                return Err(e);
            },
        }
        CommissionRepository::delete_by_id_and_status(store, commission_id, status)
    }
}

/// Relies on `chrono::Utc::now` and `DateTime::to_rfc3339`: the current
/// wall-clock time, rendered as a full RFC 3339 timestamp, which is never
/// an empty string. Nothing else can be promised of a clock reading.
#[verifier::external_body]
fn current_timestamp_rfc3339() -> (r: String)
    ensures
        r@.len() > 0,
{
    chrono::Utc::now().to_rfc3339()
}

} // verus!
