use murmure::classes::{CharClass, ClassTable};
use murmure::filler_cleaner::clean_fillers_classified;

fn entry(ch: char, word: bool, space: bool, lower: char) -> CharClass {
    CharClass { ch, word, space, lower: vec![lower] }
}

fn ascii_table() -> ClassTable {
    let mut entries = vec![entry(' ', false, true, ' ')];
    for c in 'a'..='z' {
        entries.push(entry(c, true, false, c));
    }
    for c in 'A'..='Z' {
        entries.push(entry(c, true, false, c.to_ascii_lowercase()));
    }
    ClassTable { entries }
}

#[test]
fn classified_cleaning_follows_the_table() {
    let t = ascii_table();
    assert_eq!(clean_fillers_classified(&t, "Je je euh vais  bien "), "Je vais bien");
    // a table that lists no character: nothing is a word, nothing is whitespace
    let empty = ClassTable { entries: vec![] };
    assert_eq!(clean_fillers_classified(&empty, "euh  bon"), "euh bon");
}
