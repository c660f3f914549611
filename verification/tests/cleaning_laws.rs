use murmure::filler_cleaner::clean_fillers;

#[test]
fn repetition_is_case_insensitive_and_keeps_first_spelling() {
    assert_eq!(clean_fillers("Je je vais bien"), "Je vais bien");
    assert_eq!(clean_fillers("ÉTÉ été chaud"), "ÉTÉ chaud");
}

#[test]
fn repetition_needs_whole_words_across_whitespace_only() {
    assert_eq!(clean_fillers("je jeu"), "je jeu");
    assert_eq!(clean_fillers("je, je vais"), "je, je vais");
    assert_eq!(clean_fillers("le\tle\nchat"), "le\nchat");
}

#[test]
fn fillers_next_to_punctuation() {
    assert_eq!(clean_fillers("euh, bon"), ", bon");
    assert_eq!(clean_fillers("bon... euh."), "bon... .");
}

#[test]
fn stretched_and_mixed_case_fillers() {
    assert_eq!(clean_fillers("HEUH EUUUHH Hmmmm MMMM oh"), "");
    assert_eq!(clean_fillers("humm huum"), "");
}

#[test]
fn near_fillers_are_kept() {
    assert_eq!(clean_fillers("hm m eh uh bahh bena"), "hm m eh uh bahh bena");
    assert_eq!(clean_fillers("euhx heux"), "euhx heux");
}

#[test]
fn trims_unicode_whitespace() {
    assert_eq!(clean_fillers("\t je vais\n"), "je vais");
}

#[test]
fn cleaning_twice_is_cleaning_once() {
    let inputs = [
        "euh je je vais euh bien",
        "  le le   le chat euh  dort ",
        "bah ben oh ah",
        "je euh je vais",
        "a  b\t\tc",
    ];
    for text in inputs {
        let once = clean_fillers(text);
        assert_eq!(clean_fillers(&once), once);
    }
}

#[test]
fn fillers_removed_then_repeats_collapse() {
    assert_eq!(clean_fillers("je euh je vais"), "je vais");
}

#[test]
fn clean_text_is_unchanged() {
    assert_eq!(clean_fillers("Bonjour, ça va ? Oui."), "Bonjour, ça va ? Oui.");
}

#[test]
fn combining_marks_belong_to_words() {
    // "ah" followed by a combining acute accent is one word, not the filler "ah"
    assert_eq!(clean_fillers("ah\u{301} bon"), "ah\u{301} bon");
    assert_eq!(clean_fillers("euh\u{200d}x oui"), "euh\u{200d}x oui");
    assert_eq!(clean_fillers("oh\u{203f}oh ah"), "oh\u{203f}oh");
}

#[test]
fn non_decimal_numbers_split_words() {
    // '²' is not in \w: "ah²" is the filler "ah" followed by '²'
    assert_eq!(clean_fillers("x ah² y"), "x ² y");
}
