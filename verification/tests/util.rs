use std::path::Path;
use vivid::util::{first_existing, get_all_existing_paths, get_first_existing_path, transpose};

#[test]
fn transpose_turns_the_option_inside_out() {
    let none: Option<Result<u8, String>> = None;
    assert_eq!(Ok(None), transpose(none));
    let some: Option<Result<u8, String>> = Some(Ok(3));
    assert_eq!(Ok(Some(3)), transpose(some));
    let failed: Option<Result<u8, String>> = Some(Err("no".to_string()));
    assert_eq!(Err("no".to_string()), transpose(failed));
}

#[test]
fn first_existing_path() {
    let missing = Path::new("/surely/not/there/at/all");
    let also_missing = Path::new("/neither/this/one");
    let root = Path::new("/");
    let dot = Path::new(".");
    assert_eq!(None, get_first_existing_path(&[]));
    assert_eq!(None, get_first_existing_path(&[missing, also_missing]));
    assert_eq!(Some(root), get_first_existing_path(&[missing, root, dot]));
    assert_eq!(Some(dot), get_first_existing_path(&[dot, missing, root]));
}

#[test]
fn all_existing_paths() {
    let missing = Path::new("/surely/not/there/at/all");
    let root = Path::new("/");
    let dot = Path::new(".");
    assert!(get_all_existing_paths(&[]).is_empty());
    assert!(get_all_existing_paths(&[missing]).is_empty());
    assert_eq!(vec![root, dot], get_all_existing_paths(&[missing, root, missing, dot]));
    assert_eq!(vec![dot, root, dot], get_all_existing_paths(&[dot, root, dot]));
}

#[test]
fn first_path_that_was_answered_yes() {
    let a = Path::new("/a");
    let b = Path::new("/b");
    let c = Path::new("/c");
    assert_eq!(None, first_existing(&[], &[]));
    assert_eq!(None, first_existing(&[], &[true]));
    assert_eq!(None, first_existing(&[a, b, c], &[]));
    assert_eq!(None, first_existing(&[a, b, c], &[false, false, false]));
    assert_eq!(None, first_existing(&[a, b, c], &[false, false]));
    assert_eq!(None, first_existing(&[a], &[false, true]));
    assert_eq!(Some(a), first_existing(&[a, b, c], &[true, true, true]));
    assert_eq!(Some(a), first_existing(&[a, b, c], &[true]));
    assert_eq!(Some(b), first_existing(&[a, b, c], &[false, true, true]));
    assert_eq!(Some(b), first_existing(&[a, b, c], &[false, true]));
    assert_eq!(Some(c), first_existing(&[a, b, c], &[false, false, true]));
}
