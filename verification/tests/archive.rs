use peach::archive::tarball_name;
use peach::package::Info;

#[test]
fn tarball_name_joins_name_and_version() {
    let info = Info {
        name: String::from("foo"),
        version: String::from("1.0"),
        description: String::new(),
        license: String::from("MIT"),
    };
    assert_eq!(tarball_name(&info), "foo-1.0.peach");
}
