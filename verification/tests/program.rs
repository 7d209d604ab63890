use souls_client::program::{
    get_product_info, panic_text, product_name, version_text, PanicLocation, Program, VersionInfo,
};
use souls_client::rva;

fn pair(a: &str, b: &str) -> (String, String) {
    (a.to_string(), b.to_string())
}

#[test]
fn version_has_four_parts() {
    assert_eq!(version_text(2, 6, 2, 0), "2.6.2.0");
    assert_eq!(version_text(65535, 0, 10, 1), "65535.0.10.1");
}

#[test]
fn last_product_name_counts() {
    let strings = vec![
        pair("CompanyName", "A"),
        pair("ProductName", "B"),
        pair("ProductName", "C"),
        pair("FileVersion", "D"),
    ];
    assert_eq!(product_name(&strings), Some("C".to_string()));
    assert_eq!(product_name(&vec![pair("productname", "B")]), None);
}

#[test]
fn product_info_needs_name_and_version() {
    let strings = || Some(vec![pair("ProductName", "ELDEN RING™")]);
    let full = VersionInfo { product_version: Some((2, 6, 2, 0)), strings: strings() };
    assert_eq!(
        get_product_info(&full),
        Some(("ELDEN RING™".to_string(), "2.6.2.0".to_string()))
    );
    let unversioned = VersionInfo { product_version: None, strings: strings() };
    assert_eq!(get_product_info(&unversioned), None);
    let unnamed = VersionInfo { product_version: Some((1, 0, 0, 0)), strings: Some(vec![]) };
    assert_eq!(get_product_info(&unnamed), None);
    let silent = VersionInfo { product_version: Some((1, 0, 0, 0)), strings: None };
    assert_eq!(get_product_info(&silent), None);
}

#[test]
fn addresses_wrap() {
    assert_eq!(Program { base: 0x140000000 }.derva(0x1234), 0x140001234);
    assert_eq!(Program { base: usize::MAX }.derva(3), 2);
}

#[test]
fn offsets_are_bundled() {
    let bundle = rva::get(1, 2, 3, 4, 5);
    assert_eq!(bundle.csemevd_repository_vmt, 1);
    assert_eq!(bundle.csemevd_res_cap_vmt, 2);
    assert_eq!(bundle.tpf_repository_vmt, 3);
    assert_eq!(bundle.tpf_res_cap_vmt, 4);
    assert_eq!(bundle.tpf_file_cap_vmt, 5);
}

#[test]
fn panics_are_shown_with_their_place() {
    let place = PanicLocation { file: "src/a.rs".to_string(), line: 12, column: 3 };
    assert_eq!(panic_text(Some("oh"), Some(&place)), "Error: oh\n    src/a.rs:12:3");
    assert_eq!(panic_text(None, None), "Error: Failed to inject dll");
}
