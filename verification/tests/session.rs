use sideview::session::{encode, page_rel_path};

#[test]
fn a_session_page_file_is_its_encoded_id() {
    assert_eq!(page_rel_path("cwd:/tmp/p"), ".sideview/pages/cwd%3A%2Ftmp%2Fp.sv");
    assert_eq!(encode("a b%c/é"), "a%20b%25c%2F%C3%A9");
    assert_ne!(page_rel_path("a/b"), page_rel_path("a%2Fb"));
}
