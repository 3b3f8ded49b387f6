use rustygit::repo::ErrorCategory;
use rustygit::repo::GitErrorClass;
use rustygit::repo::classify_git_error;
use rustygit::repo::clone_target_path;

#[test]
fn explicit_clone_path_is_used_as_given() {
    let r = clone_target_path("https://example.com/owner/repo.git", Some("/tmp/checkout"));
    assert_eq!(r, "/tmp/checkout");
}

#[test]
fn clone_path_is_derived_from_url_name() {
    let r = clone_target_path("https://example.com/owner/repo.git", None);
    assert_eq!(r, "./repo");
}

#[test]
fn clone_path_keeps_name_without_git_suffix() {
    let r = clone_target_path("https://example.com/owner/project", None);
    assert_eq!(r, "./project");
}

#[test]
fn clone_path_of_bare_name_is_the_name() {
    assert_eq!(clone_target_path("project.git", None), "./project");
    assert_eq!(clone_target_path("project", None), "./project");
}

#[test]
fn clone_path_of_trailing_slash_url_is_current_directory() {
    assert_eq!(clone_target_path("https://example.com/owner/", None), "./");
}

#[test]
fn storage_error_classes_are_permission_io() {
    assert_eq!(classify_git_error(GitErrorClass::Odb), ErrorCategory::PermissionIo);
    assert_eq!(classify_git_error(GitErrorClass::Reference), ErrorCategory::PermissionIo);
    assert_eq!(classify_git_error(GitErrorClass::Repository), ErrorCategory::PermissionIo);
}

#[test]
fn other_error_classes_are_invalid_data() {
    assert_eq!(classify_git_error(GitErrorClass::Other), ErrorCategory::InvalidData);
}
