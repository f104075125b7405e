use json::parser::Options;

#[test]
fn strict_preset_switches_everything_off() {
    for _ in 0..3 {
        let options = Options::default();
        assert!(!options.allow_unquoted_identifier);
        assert!(!options.allow_trailing_comma);
        assert!(!options.allow_single_quotes);
        assert!(!options.allow_comments);
        assert_eq!(options.tab_width, 4);
    }
}

#[test]
fn permissive_preset_switches_everything_on() {
    for _ in 0..3 {
        let options = Options::js();
        assert!(options.allow_unquoted_identifier);
        assert!(options.allow_trailing_comma);
        assert!(options.allow_single_quotes);
        assert!(options.allow_comments);
        assert_eq!(options.tab_width, 4);
    }
}

#[test]
fn presets_have_the_same_tab_width() {
    assert_eq!(Options::default().tab_width, Options::js().tab_width);
}

#[test]
fn new_puts_each_switch_in_its_field() {
    let options = Options::new(true, false, false, false, 2);
    assert!(options.allow_unquoted_identifier);
    assert!(!options.allow_trailing_comma && !options.allow_single_quotes);
    assert!(!options.allow_comments);
    assert_eq!(options.tab_width, 2);
    let options = Options::new(false, true, false, false, 8);
    assert!(options.allow_trailing_comma);
    assert!(!options.allow_unquoted_identifier && !options.allow_single_quotes);
    let options = Options::new(false, false, true, false, 8);
    assert!(options.allow_single_quotes);
    assert!(!options.allow_unquoted_identifier && !options.allow_trailing_comma);
    let options = Options::new(false, false, false, true, 8);
    assert!(options.allow_comments);
    assert!(!options.allow_single_quotes);
    assert_eq!(options.tab_width, 8);
}
