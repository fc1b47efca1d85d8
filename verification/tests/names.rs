use lkpm::pkg_utils::normalize_dependency_name;

#[test]
fn dependency_names_lose_constraints() {
    assert_eq!(normalize_dependency_name(" glibc>=2.3: the C library"), "glibc");
    assert_eq!(normalize_dependency_name("bash"), "bash");
}
