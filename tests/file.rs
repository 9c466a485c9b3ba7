use std::io::{Error as IOError, ErrorKind};
use std::path::PathBuf;

use hd_fpv_osd_font_tool::file::{Action, Error, HardLinkError, SymlinkError};

#[test]
fn action_words() {
    assert_eq!(Action::Close.as_str(), "closing");
    assert_eq!(Action::Create.as_str(), "creating");
    assert_eq!(Action::Open.as_str(), "opening");
    assert_eq!(Action::Read.as_str(), "reading");
    assert_eq!(Action::Seek.as_str(), "seeking");
    assert_eq!(Action::Write.as_str(), "writing");
}

#[test]
fn error_keeps_action_path_and_cause() {
    let e = Error::new(Action::Write, PathBuf::from("/tmp/font.bin"), IOError::new(ErrorKind::WriteZero, "full"));
    assert_eq!(*e.action(), Action::Write);
    assert_eq!(e.path(), &PathBuf::from("/tmp/font.bin"));
    assert_eq!(e.error().kind(), ErrorKind::WriteZero);
}

#[test]
fn hard_link_error_keeps_paths() {
    let e = HardLinkError::new(PathBuf::from("a"), PathBuf::from("b"), IOError::new(ErrorKind::NotFound, "gone"));
    assert_eq!(e.original_path(), &PathBuf::from("a"));
    assert_eq!(e.link_path(), &PathBuf::from("b"));
    assert_eq!(e.error().kind(), ErrorKind::NotFound);
}

#[test]
fn symlink_error_keeps_paths() {
    let e = SymlinkError::new(PathBuf::from("c"), PathBuf::from("d"), IOError::new(ErrorKind::AlreadyExists, "there"));
    assert_eq!(e.original_path(), &PathBuf::from("c"));
    assert_eq!(e.link_path(), &PathBuf::from("d"));
    assert_eq!(e.error().kind(), ErrorKind::AlreadyExists);
}
