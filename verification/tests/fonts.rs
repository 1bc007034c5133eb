use fontcache::font_path;
use fontcache::FontRepository;

#[test]
fn font_path_joins_root_folder_and_name() {
    assert_eq!(font_path("sans", "Arial.ttf"), "fonts/sans/Arial.ttf");
}

#[test]
fn font_path_skips_an_empty_folder() {
    assert_eq!(font_path("", "Arial.ttf"), "fonts/Arial.ttf");
}

#[test]
fn font_path_with_empty_name_keeps_the_separator() {
    assert_eq!(font_path("sans", ""), "fonts/sans/");
    assert_eq!(font_path("", ""), "fonts/");
}

#[test]
fn get_font_misses_on_an_empty_repository() {
    let repo = FontRepository::new();
    assert!(repo.get_font("sans", "Arial.ttf", 24).is_none());
}

#[test]
fn memoization_second_lookup_returns_the_same_resource() {
    let mut repo = FontRepository::new();
    assert!(repo.get_font("sans", "Arial.ttf", 24).is_none());
    let loaded = repo.complete_load("sans", "Arial.ttf", 24, Ok(7)).unwrap();
    assert_eq!(loaded.handle(), 7);
    let first = repo.get_font("sans", "Arial.ttf", 24).unwrap().handle();
    let second = repo.get_font("sans", "Arial.ttf", 24).unwrap().handle();
    assert_eq!(first, 7);
    assert_eq!(first, second);
}

#[test]
fn key_sensitivity_each_size_keeps_its_own_entry() {
    let mut repo = FontRepository::new();
    repo.complete_load("sans", "Arial.ttf", 24, Ok(0)).unwrap();
    repo.complete_load("sans", "Arial.ttf", 36, Ok(1)).unwrap();
    assert_eq!(repo.get_font("sans", "Arial.ttf", 24).unwrap().handle(), 0);
    assert_eq!(repo.get_font("sans", "Arial.ttf", 36).unwrap().handle(), 1);
}

#[test]
fn distinct_names_get_distinct_entries() {
    let mut repo = FontRepository::new();
    repo.complete_load("sans", "Arial.ttf", 24, Ok(0)).unwrap();
    repo.complete_load("sans", "Courier.ttf", 24, Ok(1)).unwrap();
    assert_eq!(repo.get_font("sans", "Arial.ttf", 24).unwrap().handle(), 0);
    assert_eq!(repo.get_font("sans", "Courier.ttf", 24).unwrap().handle(), 1);
}

#[test]
fn no_negative_caching_a_failed_load_is_retried() {
    let mut repo = FontRepository::new();
    let error = repo
        .complete_load("sans", "Missing.ttf", 24, Err(String::from("no such file")))
        .unwrap_err();
    assert_eq!(error.message(), "fonts/sans/Missing.ttf: no such file");
    assert!(repo.get_font("sans", "Missing.ttf", 24).is_none());
    let again = repo
        .complete_load("sans", "Missing.ttf", 24, Err(String::from("no such file")))
        .unwrap_err();
    assert_eq!(again.message(), "fonts/sans/Missing.ttf: no such file");
    assert!(repo.get_font("sans", "Missing.ttf", 24).is_none());
}

#[test]
fn a_failure_does_not_disturb_other_entries() {
    let mut repo = FontRepository::new();
    repo.complete_load("sans", "Arial.ttf", 24, Ok(5)).unwrap();
    repo.complete_load("sans", "Missing.ttf", 24, Err(String::from("unreadable")))
        .unwrap_err();
    assert_eq!(repo.get_font("sans", "Arial.ttf", 24).unwrap().handle(), 5);
}

#[test]
fn equivalent_paths_share_one_cache_entry() {
    let mut repo = FontRepository::new();
    repo.complete_load("sans", "Arial.ttf", 24, Ok(3)).unwrap();
    let via_name = repo.get_font("", "sans/Arial.ttf", 24).unwrap();
    assert_eq!(via_name.handle(), 3);
}
