use commission_store::client_repo::ClientRepository;
use commission_store::commission_repo::CommissionRepository;
use commission_store::images::ImageService;
use commission_store::records::{Client, Commission};
use commission_store::services::{ClientService, CommissionService};
use commission_store::store::{DataStore, FileData};

fn sample_client() -> Client {
    Client {
        id: "c1".to_string(),
        name: "Alice".to_string(),
        email: "alice@example.com".to_string(),
        contact: "+1 555 0100".to_string(),
        profile_image: Some("images/c1_face.png".to_string()),
        notes: None,
        created_at: "2024-01-01T00:00:00Z".to_string(),
        updated_at: "2024-01-01T00:00:00Z".to_string(),
    }
}

fn sample_commission() -> Commission {
    Commission {
        id: "ord1".to_string(),
        client_id: "c1".to_string(),
        client_name: "Bob/Smith".to_string(),
        title: "Portrait".to_string(),
        description: "A painted portrait".to_string(),
        price_cents: 500,
        payment_status: "Not Paid".to_string(),
        status: "pending".to_string(),
        created_at: "2024-01-01T00:00:00Z".to_string(),
        updated_at: "2024-01-01T00:00:00Z".to_string(),
        images: vec![],
    }
}

fn store_paths(store: &DataStore) -> Vec<String> {
    let mut out = Vec::new();
    for i in 0..store.len() {
        out.push(store.path_at_index(i).clone());
    }
    out
}

#[test]
fn save_then_find_by_id_returns_equal_record() {
    let mut store = DataStore::new();
    let c = sample_client();
    ClientRepository::save(&mut store, &c).unwrap();
    let back = ClientRepository::find_by_id(&store, "c1").unwrap().unwrap();
    assert_eq!(back.id, c.id);
    assert_eq!(back.name, c.name);
    assert_eq!(back.email, c.email);
    assert_eq!(back.contact, c.contact);
    assert_eq!(back.profile_image, c.profile_image);
    assert_eq!(back.notes, c.notes);
    assert_eq!(back.created_at, c.created_at);
    assert_eq!(back.updated_at, c.updated_at);
}

#[test]
fn round_trip_keeps_awkward_field_text() {
    let mut store = DataStore::new();
    let mut c = sample_client();
    c.notes = Some("line one\nline \"two\"\t\\slash\u{8}\u{c}\r end".to_string());
    c.name = "Zoe\u{30a2}\u{1f600}".to_string();
    ClientRepository::save(&mut store, &c).unwrap();
    let back = ClientRepository::find_by_id(&store, "c1").unwrap().unwrap();
    assert_eq!(back.notes, c.notes);
    assert_eq!(back.name, c.name);
}

#[test]
fn absent_id_reports_absence_not_error() {
    let mut store = DataStore::new();
    let found = ClientRepository::find_by_id(&store, "ghost").unwrap();
    assert!(found.is_none());
    assert!(ClientRepository::delete(&mut store, "ghost").is_ok());
    assert_eq!(store.len(), 0);
}

#[test]
fn client_file_lands_under_clients_folder() {
    let mut store = DataStore::new();
    ClientService::create_client(&mut store, &sample_client()).unwrap();
    let paths = store_paths(&store);
    assert_eq!(paths, vec!["clients/c1.json".to_string()]);
}

#[test]
fn create_client_rejects_bad_id_before_any_write() {
    let mut store = DataStore::new();
    let mut c = sample_client();
    c.id = "bad id!".to_string();
    assert!(ClientService::create_client(&mut store, &c).is_err());
    assert_eq!(store.len(), 0);
}

#[test]
fn find_all_lists_clients_and_skips_corrupt_files() {
    let mut store = DataStore::new();
    ClientRepository::save(&mut store, &sample_client()).unwrap();
    let mut c2 = sample_client();
    c2.id = "c2".to_string();
    c2.name = "Bruno".to_string();
    ClientRepository::save(&mut store, &c2).unwrap();
    store.write(
        "clients/broken.json".to_string(),
        FileData::Text("{not json at all".to_string()),
    );
    let all = ClientRepository::find_all(&store).unwrap();
    assert_eq!(all.len(), 2);
    let names: Vec<&str> = all.iter().map(|c| c.name.as_str()).collect();
    assert!(names.contains(&"Alice") && names.contains(&"Bruno"));
}

#[test]
fn commission_file_lands_at_sanitized_path() {
    let mut store = DataStore::new();
    CommissionRepository::save(&mut store, &sample_commission()).unwrap();
    let paths = store_paths(&store);
    assert_eq!(paths, vec!["pendings/Bob_Smith/ord1_2024-01-01T00-00-00Z.json".to_string()]);
}

#[test]
fn completed_commission_lands_under_history() {
    let mut store = DataStore::new();
    let mut m = sample_commission();
    m.status = "completed".to_string();
    CommissionRepository::save(&mut store, &m).unwrap();
    let paths = store_paths(&store);
    assert_eq!(paths.len(), 1);
    assert!(paths[0].starts_with("history/"));
    let mut m2 = sample_commission();
    m2.id = "ord2".to_string();
    m2.status = "in-progress".to_string();
    CommissionRepository::save(&mut store, &m2).unwrap();
    let paths = store_paths(&store);
    assert!(paths[1].starts_with("pendings/"));
}

#[test]
fn commission_price_round_trip() {
    let mut store = DataStore::new();
    let mut m = sample_commission();
    m.price_cents = 1234;
    CommissionRepository::save(&mut store, &m).unwrap();
    let listed = CommissionRepository::find_by_status(&store, "pending").unwrap();
    assert_eq!(listed.len(), 1);
    assert_eq!(listed[0].price_cents, 1234);
    assert_eq!(listed[0].title, "Portrait");
}

#[test]
fn legacy_float_price_converts_to_cents() {
    let mut store = DataStore::new();
    store.write(
        "pendings/Old/legacy_1.json".to_string(),
        FileData::Text(
            "{\"id\": \"legacy\", \"client_name\": \"Old\", \"price\": 12.34}".to_string(),
        ),
    );
    let listed = CommissionRepository::find_by_status(&store, "pending").unwrap();
    assert_eq!(listed.len(), 1);
    assert_eq!(listed[0].price_cents, 1234);
    assert_eq!(listed[0].id, "legacy");
    // Absent fields fall back to type-appropriate defaults.
    assert_eq!(listed[0].payment_status, "Not Paid");
    assert_eq!(listed[0].status, "pending");
    assert_eq!(listed[0].description, "");
    assert!(listed[0].images.is_empty());
}

#[test]
fn legacy_price_rounds_half_away_and_integer_price_counts_as_dollars() {
    let mut store = DataStore::new();
    store.write(
        "pendings/A/r1_1.json".to_string(),
        FileData::Text("{\"id\": \"r1\", \"price\": 0.125}".to_string()),
    );
    store.write(
        "pendings/A/r2_1.json".to_string(),
        FileData::Text("{\"id\": \"r2\", \"price\": 7}".to_string()),
    );
    let listed = CommissionRepository::find_by_status(&store, "pending").unwrap();
    assert_eq!(listed.len(), 2);
    let by_id = |id: &str| listed.iter().find(|m| m.id == id).unwrap().price_cents;
    assert_eq!(by_id("r1"), 13);
    assert_eq!(by_id("r2"), 700);
}

#[test]
fn record_without_any_price_is_skipped() {
    let mut store = DataStore::new();
    store.write(
        "pendings/A/x_1.json".to_string(),
        FileData::Text("{\"id\": \"x\", \"title\": \"no price\"}".to_string()),
    );
    let listed = CommissionRepository::find_by_status(&store, "pending").unwrap();
    assert!(listed.is_empty());
}

#[test]
fn move_to_completed_relocates_and_restamps() {
    let mut store = DataStore::new();
    CommissionRepository::save(&mut store, &sample_commission()).unwrap();
    CommissionService::move_commission(
        &mut store,
        "ord1",
        "pending",
        "completed",
        "2024-02-02T00:00:00Z",
    )
    .unwrap();
    let completed = CommissionRepository::find_by_status(&store, "completed").unwrap();
    assert_eq!(completed.len(), 1);
    assert_eq!(completed[0].id, "ord1");
    assert_eq!(completed[0].status, "completed");
    assert_eq!(completed[0].updated_at, "2024-02-02T00:00:00Z");
    assert!(completed[0].updated_at.as_str() > "2024-01-01T00:00:00Z");
    let pending = CommissionRepository::find_by_status(&store, "pending").unwrap();
    assert!(pending.is_empty());
}

#[test]
fn move_between_pending_and_in_progress_keeps_the_record() {
    let mut store = DataStore::new();
    CommissionRepository::save(&mut store, &sample_commission()).unwrap();
    CommissionService::move_commission(
        &mut store,
        "ord1",
        "pending",
        "in-progress",
        "2024-02-02T00:00:00Z",
    )
    .unwrap();
    let listed = CommissionRepository::find_by_status(&store, "pending").unwrap();
    assert_eq!(listed.len(), 1);
    assert_eq!(listed[0].status, "in-progress");
    assert_eq!(listed[0].updated_at, "2024-02-02T00:00:00Z");
}

#[test]
fn move_of_absent_id_errors_and_changes_nothing() {
    let mut store = DataStore::new();
    CommissionRepository::save(&mut store, &sample_commission()).unwrap();
    let before = store_paths(&store);
    assert!(CommissionService::move_commission(
        &mut store,
        "ghost",
        "pending",
        "completed",
        "2024-02-02T00:00:00Z",
    )
    .is_err());
    assert_eq!(store_paths(&store), before);
}

#[test]
fn move_with_short_id_never_touches_a_longer_id_file() {
    let mut store = DataStore::new();
    let mut ab = sample_commission();
    ab.id = "ab".to_string();
    let mut abc = sample_commission();
    abc.id = "abc".to_string();
    CommissionRepository::save(&mut store, &ab).unwrap();
    CommissionRepository::save(&mut store, &abc).unwrap();
    CommissionService::move_commission(
        &mut store,
        "ab",
        "pending",
        "completed",
        "2024-02-02T00:00:00Z",
    )
    .unwrap();
    let pending = CommissionRepository::find_by_status(&store, "pending").unwrap();
    assert_eq!(pending.len(), 1);
    assert_eq!(pending[0].id, "abc");
    assert!(store_paths(&store)
        .iter()
        .any(|p| p == "pendings/Bob_Smith/abc_2024-01-01T00-00-00Z.json"));
}

#[test]
fn delete_by_id_and_status_removes_exactly_the_matching_file() {
    let mut store = DataStore::new();
    let mut a = sample_commission();
    a.id = "a1".to_string();
    let mut b = sample_commission();
    b.id = "b2".to_string();
    CommissionRepository::save(&mut store, &a).unwrap();
    CommissionRepository::save(&mut store, &b).unwrap();
    CommissionRepository::delete_by_id_and_status(&mut store, "a1", "pending").unwrap();
    let listed = CommissionRepository::find_by_status(&store, "pending").unwrap();
    assert_eq!(listed.len(), 1);
    assert_eq!(listed[0].id, "b2");
    assert!(CommissionRepository::delete_by_id_and_status(&mut store, "a1", "pending").is_err());
}

#[test]
fn create_commission_drops_empty_images_and_validates_the_rest() {
    let mut store = DataStore::new();
    let mut m = sample_commission();
    m.client_name = "Bob Smith".to_string();
    m.images = vec!["".to_string(), "images/ord1_a.jpg".to_string()];
    CommissionService::create_commission(&mut store, &m).unwrap();
    let listed = CommissionService::get_commissions_by_status(&store, "pending").unwrap();
    assert_eq!(listed[0].images, vec!["images/ord1_a.jpg".to_string()]);
    let mut bad = sample_commission();
    bad.id = "ord2".to_string();
    bad.client_name = "Bob Smith".to_string();
    bad.images = vec!["../escape".to_string()];
    assert!(CommissionService::create_commission(&mut store, &bad).is_err());
}

#[test]
fn get_commissions_rejects_unknown_status() {
    let store = DataStore::new();
    assert!(CommissionService::get_commissions_by_status(&store, "archived").is_err());
}

#[test]
fn jpeg_image_saves_under_pendings_and_returns_relative_path() {
    let mut store = DataStore::new();
    let data = vec![0xFF, 0xD8, 0xFF, 0x00, 1, 2, 3, 4, 5, 6];
    let rel = ImageService::save_commission_image(&mut store, "ord1", "Bob Smith", data, "a.jpg")
        .unwrap();
    assert_eq!(rel, "images/ord1_a.jpg");
    let paths = store_paths(&store);
    assert_eq!(paths, vec!["pendings/Bob Smith/images/ord1_a.jpg".to_string()]);
}

#[test]
fn exe_filename_fails_before_any_write() {
    let mut store = DataStore::new();
    let data = vec![0xFF, 0xD8, 0xFF, 0x00, 1, 2, 3, 4, 5, 6];
    assert!(
        ImageService::save_commission_image(&mut store, "ord1", "Bob Smith", data, "a.exe")
            .is_err()
    );
    assert_eq!(store.len(), 0);
}

#[test]
fn image_magic_numbers_are_sniffed() {
    let mut store = DataStore::new();
    let png = vec![0x89, 0x50, 0x4E, 0x47, 0, 0, 0, 0];
    assert!(
        ImageService::save_commission_image(&mut store, "p", "N", png, "p.png").is_ok()
    );
    let gif = vec![0x47, 0x49, 0x46, 0x38, 0x39, 0x61];
    assert!(ImageService::save_commission_image(&mut store, "g", "N", gif, "g.gif").is_ok());
    let bmp = vec![0x42, 0x4D, 0, 0];
    assert!(ImageService::save_commission_image(&mut store, "b", "N", bmp, "b.bmp").is_ok());
    let webp = vec![
        0x52, 0x49, 0x46, 0x46, 0, 0, 0, 0, 0x57, 0x45, 0x42, 0x50,
    ];
    assert!(ImageService::save_commission_image(&mut store, "w", "N", webp, "w.webp").is_ok());
    let riff_only = vec![0x52, 0x49, 0x46, 0x46, 0, 0, 0, 0];
    assert!(
        ImageService::save_commission_image(&mut store, "r", "N", riff_only, "r.webp").is_err()
    );
    let garbage = vec![0, 1, 2, 3, 4];
    assert!(
        ImageService::save_commission_image(&mut store, "x", "N", garbage, "x.png").is_err()
    );
    let short = vec![0xFF, 0xD8];
    assert!(ImageService::save_commission_image(&mut store, "s", "N", short, "s.jpg").is_err());
}

#[test]
fn oversized_image_is_rejected() {
    let mut store = DataStore::new();
    let mut data = vec![0u8; 10 * 1024 * 1024 + 1];
    data[0] = 0xFF;
    data[1] = 0xD8;
    data[2] = 0xFF;
    assert!(
        ImageService::save_commission_image(&mut store, "big", "N", data, "big.jpg").is_err()
    );
    assert_eq!(store.len(), 0);
}

#[test]
fn image_files_never_appear_in_record_listings() {
    let mut store = DataStore::new();
    let mut m = sample_commission();
    m.client_name = "Bob Smith".to_string();
    CommissionRepository::save(&mut store, &m).unwrap();
    let data = vec![0xFF, 0xD8, 0xFF, 0x00];
    ImageService::save_commission_image(&mut store, "ord1", "Bob Smith", data, "a.jpg").unwrap();
    let listed = CommissionRepository::find_by_status(&store, "pending").unwrap();
    assert_eq!(listed.len(), 1);
    assert_eq!(listed[0].id, "ord1");
}

#[test]
fn binary_bytes_under_a_json_name_are_skipped_not_fatal() {
    let mut store = DataStore::new();
    ClientRepository::save(&mut store, &sample_client()).unwrap();
    store.write(
        "clients/odd.json".to_string(),
        FileData::Bin(vec![0xFF, 0xFE, 0x00]),
    );
    let all = ClientRepository::find_all(&store).unwrap();
    assert_eq!(all.len(), 1);
    assert_eq!(all[0].id, "c1");
}

#[test]
fn wall_clock_move_stamps_a_nonempty_timestamp() {
    let mut store = DataStore::new();
    let mut m = sample_commission();
    m.updated_at = "".to_string();
    // The repository does not validate; write a record whose updated_at is
    // empty, so the restamp is observable.
    CommissionRepository::save(&mut store, &m).unwrap();
    CommissionService::move_commission_at_current_time(&mut store, "ord1", "pending", "completed")
        .unwrap();
    let completed = CommissionRepository::find_by_status(&store, "completed").unwrap();
    assert_eq!(completed.len(), 1);
    assert!(!completed[0].updated_at.is_empty());
    assert_eq!(completed[0].status, "completed");
}
