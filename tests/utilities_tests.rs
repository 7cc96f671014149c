use quickdash::utilities::{mul_str, relative_name, vec_merge};
use quickdash::Error;

#[test]
fn vec_merge_appends() {
    assert_eq!(vec_merge(vec![0], vec![1]), vec![0, 1]);
    assert_eq!(vec_merge(Vec::<u8>::new(), vec![]), Vec::<u8>::new());
}

#[test]
fn mul_str_repeats() {
    assert_eq!(mul_str("LOL! ", 3), "LOL! LOL! LOL! ".to_string());
    assert_eq!(mul_str("-", 0), "".to_string());
    assert_eq!(mul_str("-", 8), "--------".to_string());
}

#[test]
fn relative_name_strips_prefix() {
    assert_eq!(relative_name("/usr", "/usr/bin/quickdash"), Some("bin/quickdash".to_string()));
    assert_eq!(relative_name("/usr", "/etc/passwd"), None);
    assert_eq!(relative_name("/usr", "/usrx/file"), None);
    assert_eq!(relative_name("/a", "/a/b\\c"), Some("b/c".to_string()));
}

#[test]
fn exit_values() {
    assert_eq!(Error::NoError.exit_value(), 0);
    assert_eq!(Error::OptionParsingError.exit_value(), 1);
    assert_eq!(Error::HashLengthDiffers.exit_value(), 2);
    assert_eq!(Error::HashesFileParsingFailure.exit_value(), 3);
    assert_eq!(Error::NFilesDiffer(4).exit_value(), 7);
}

#[test]
fn error_from_exit_value() {
    assert_eq!(Error::from(0), Error::NoError);
    assert_eq!(Error::from(2), Error::HashLengthDiffers);
    assert_eq!(Error::from(3), Error::HashesFileParsingFailure);
    assert_eq!(Error::from(10), Error::NFilesDiffer(7));
    assert_eq!(Error::from(Error::NFilesDiffer(5).exit_value()), Error::NFilesDiffer(5));
}
