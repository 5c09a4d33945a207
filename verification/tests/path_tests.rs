use commission_store::file_storage::FileStorage;

#[test]
fn sanitize_filename_replaces_hazards_with_underscore() {
    assert_eq!(FileStorage::sanitize_filename("a/b\\c:d*e?f\"g<h>i|j"), "a_b_c_d_e_f_g_h_i_j");
    assert_eq!(FileStorage::sanitize_filename("Bob/Smith"), "Bob_Smith");
    assert_eq!(FileStorage::sanitize_filename("plain name.png"), "plain name.png");
    assert_eq!(FileStorage::sanitize_filename(""), "");
    assert_eq!(FileStorage::sanitize_filename("\u{e9}l\u{e8}ve"), "\u{e9}l\u{e8}ve");
}

#[test]
fn sanitize_timestamp_replaces_hazards_with_hyphen() {
    assert_eq!(
        FileStorage::sanitize_timestamp("2024-01-01T00:00:00Z"),
        "2024-01-01T00-00-00Z"
    );
    assert_eq!(FileStorage::sanitize_timestamp("a/b\\c*d?e\"f<g>h|i"), "a-b-c-d-e-f-g-h-i");
}

#[test]
fn path_builders_compose_the_layout() {
    assert_eq!(FileStorage::client_file_path("c1"), "clients/c1.json");
    assert_eq!(FileStorage::status_root_folder("pending"), "pendings");
    assert_eq!(FileStorage::status_root_folder("in-progress"), "pendings");
    assert_eq!(FileStorage::status_root_folder("completed"), "history");
    assert_eq!(
        FileStorage::commission_file_path("pending", "Bob/Smith", "ord1", "2024-01-01T00:00:00Z"),
        "pendings/Bob_Smith/ord1_2024-01-01T00-00-00Z.json"
    );
    assert_eq!(
        FileStorage::commission_file_path("completed", "Bob", "ord1", "t"),
        "history/Bob/ord1_t.json"
    );
    assert_eq!(
        FileStorage::image_file_path("Bob/Smith", "ord1", "a b.jpg"),
        "pendings/Bob_Smith/images/ord1_a b.jpg"
    );
    assert_eq!(FileStorage::image_relative_path("ord1", "a:b.jpg"), "images/ord1_a_b.jpg");
}
