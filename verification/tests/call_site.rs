use yerd_dump::call_site::{caller_location, is_internal_path, StackFrame};

fn frame(internal: bool, file: Option<&str>, line_start: u32, current: Option<u32>) -> StackFrame {
    StackFrame {
        internal,
        file: file.map(|f| f.to_owned()),
        line_start,
        current_line: current,
    }
}

#[test]
fn vendor_paths_are_internal() {
    assert!(is_internal_path("/srv/app/vendor/laravel/Foo.php"));
    assert!(!is_internal_path("/srv/app/Foo.php"));
    assert!(!is_internal_path("/srv/vendored/Foo.php"));
    assert!(!is_internal_path("vendor/Foo.php"));
    assert!(!is_internal_path(""));
    assert!(is_internal_path("/vendor/"));
}

#[test]
fn the_application_frame_is_reported() {
    let frames = vec![
        frame(true, Some("/srv/app/Internal.php"), 1, Some(1)),
        frame(false, Some("/srv/vendor/a/Helper.php"), 3, Some(9)),
        frame(false, Some("/srv/app/Foo.php"), 20, Some(36)),
        frame(false, Some("/srv/app/Bar.php"), 1, Some(2)),
    ];
    assert_eq!(caller_location(&frames), (Some("/srv/app/Foo.php".to_owned()), 36));
}

#[test]
fn without_an_application_frame_the_nearest_is_reported() {
    let frames = vec![
        frame(true, None, 0, None),
        frame(false, None, 5, Some(6)),
        frame(false, Some("/srv/vendor/a/First.php"), 3, None),
        frame(false, Some("/srv/vendor/b/Second.php"), 4, Some(8)),
    ];
    assert_eq!(caller_location(&frames), (Some("/srv/vendor/a/First.php".to_owned()), 3));
}

#[test]
fn without_any_file_there_is_no_call_site() {
    assert_eq!(caller_location(&vec![]), (None, 0));
    let frames = vec![frame(true, Some("/srv/app/X.php"), 7, Some(8)), frame(false, None, 1, None)];
    assert_eq!(caller_location(&frames), (None, 0));
}

#[test]
fn the_first_line_of_the_function_stands_in_for_an_unknown_line() {
    let frames = vec![frame(false, Some("/srv/app/Foo.php"), 20, None)];
    assert_eq!(caller_location(&frames), (Some("/srv/app/Foo.php".to_owned()), 20));
}
