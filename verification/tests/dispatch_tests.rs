use eopkginst::dispatch::{select_backend, Backend};

#[test]
fn backend_goes_by_extension() {
    assert_eq!(select_backend("pkg/app-1.0.deb"), Backend::Deb);
    assert_eq!(select_backend("app.eopkg"), Backend::Eopkg);
    assert_eq!(select_backend("/tmp/app.rpm"), Backend::Rpm);
    assert_eq!(select_backend(".deb"), Backend::Deb);
}

#[test]
fn other_paths_are_unsupported() {
    assert_eq!(select_backend("app.tar.xz"), Backend::Unsupported);
    assert_eq!(select_backend("app.DEB"), Backend::Unsupported);
    assert_eq!(select_backend("app.deb.txt"), Backend::Unsupported);
    assert_eq!(select_backend("deb"), Backend::Unsupported);
    assert_eq!(select_backend(""), Backend::Unsupported);
}
