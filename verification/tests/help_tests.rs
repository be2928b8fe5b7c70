use taskwarrior_tui::help::Help;
use taskwarrior_tui::utils::Changeset;

#[test]
fn test_help_counts_lines() {
    let help = Help::new("first\nsecond\nthird");
    assert_eq!(help.title, "Help");
    assert_eq!(help.scroll, 0);
    assert_eq!(help.text_height, 3);

    // A trailing newline opens no extra line.
    assert_eq!(Help::new("first\nsecond\n").text_height, 2);
    assert_eq!(Help::new("").text_height, 0);
    assert_eq!(Help::new("only").text_height, 1);
}

#[test]
fn test_help_default_is_empty() {
    let help = Help::default();
    assert_eq!(help.title, "Help");
    assert_eq!(help.scroll, 0);
    assert_eq!(help.text_height, 0);
}

#[test]
fn test_changeset_builds() {
    let _changeset = Changeset::default();
}
