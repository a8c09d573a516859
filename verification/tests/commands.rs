#[test]
fn info_reports_the_package() {
    assert_eq!(
        peach::commands::info("foo"),
        Ok(String::from("Retrieving info for package: foo"))
    );
}

#[test]
fn uninstall_reports_the_package() {
    assert_eq!(
        peach::commands::uninstall("foo"),
        Ok(String::from("Removing package: foo"))
    );
}
