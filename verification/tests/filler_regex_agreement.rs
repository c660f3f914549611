use murmure::filler_cleaner::clean_fillers;
use regex::Regex;

/// The filler words the cleaner removes are those the pattern
/// `(?iu)\b(?:e+u+h+|h+e+u+h*|h+[um]+m+|m{2,}|bah|ben|[ao]h)\b` matches as a
/// whole word; single words are compared here against that pattern.
#[test]
fn single_words_agree_with_filler_pattern() {
    let re = Regex::new(r"(?iu)^(?:e+u+h+|h+e+u+h*|h+[um]+m+|m{2,}|bah|ben|[ao]h)$").unwrap();
    let words = [
        "euh", "euuh", "euhh", "eeuh", "eu", "uh", "heu", "heuh", "hheuhh", "hum", "hmm", "hmmm",
        "humm", "huum", "hm", "hu", "mm", "mmm", "m", "bah", "ben", "ah", "oh", "ahh", "ohh",
        "Euh", "HUM", "BeN", "eh", "mum", "hmu", "hmum", "muh", "bahh", "benn", "heure", "bien",
    ];
    for w in words {
        let removed = clean_fillers(w).is_empty();
        assert_eq!(removed, re.is_match(w), "word {:?}", w);
    }
}

/// On texts where no word is repeated, cleaning is the filler pattern with
/// its word boundaries, then space collapsing and trimming.
#[test]
fn texts_agree_with_filler_pattern_and_boundaries() {
    let filler =
        Regex::new(r"(?iu)\b(?:e+u+h+|h+e+u+h*|h+[um]+m+|m{2,}|bah|ben|[ao]h)\b").unwrap();
    let spaces = Regex::new(r" {2,}").unwrap();
    let texts = [
        "je euh vais bien",
        "ah\u{301} oui",
        "oh\u{203f}x ah y",
        "x ah² y",
        "euh, bon... hum!",
        "l'euh mm_ben bah",
        "Ben-oh Ah",
        "\u{200d}euh zéro",
        "euh\u{200d} zéro",
        "  hmm   le chat  ",
    ];
    for t in texts {
        let a = filler.replace_all(t, "");
        let b = spaces.replace_all(&a, " ");
        assert_eq!(clean_fillers(t), b.trim(), "text {:?}", t);
    }
}
