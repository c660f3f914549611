//! How the cleaning classifies characters: word characters, whitespace,
//! lowercase expansions.

use vstd::prelude::*;
use crate::chars::{
    char_is_whitespace, char_lowercase, is_whitespace, is_word_character, lowercase,
    regex_is_word_char,
};

verus! {

/// A classification of characters.
pub ghost struct Classes {
    pub word: spec_fn(char) -> bool,
    pub space: spec_fn(char) -> bool,
    pub lower: spec_fn(char) -> Seq<char>,
}

/// A classification the laws of cleaning hold for: the space character is
/// whitespace, and no word character is whitespace.
pub open spec fn valid_classes(cl: Classes) -> bool {
    &&& (cl.space)(' ')
    &&& forall|c: char| #[trigger] (cl.word)(c) ==> !(cl.space)(c)
}

/// The classification transcripts are cleaned with: the Unicode `\w`
/// class (which holds no whitespace; whitespace is excluded explicitly),
/// `std`'s whitespace and `std`'s lowercase expansion.
pub open spec fn std_classes() -> Classes {
    Classes {
        word: |c: char| regex_is_word_char(c) && !char_is_whitespace(c),
        space: |c: char| char_is_whitespace(c),
        lower: |c: char| char_lowercase(c),
    }
}

/// Transcripts are cleaned with the Unicode `\w` class for words (less
/// whitespace), `std`'s whitespace, and `std`'s `to_lowercase` for case.
pub proof fn lemma_std_classes_meaning(c: char)
    ensures
        (std_classes().word)(c) == (regex_is_word_char(c) && !char_is_whitespace(c)),
        (std_classes().space)(c) == char_is_whitespace(c),
        (std_classes().lower)(c) == char_lowercase(c),
        (std_classes().space)(' '),
{
}

pub proof fn lemma_std_classes_valid()
    ensures
        valid_classes(std_classes()),
{
}

/// Executable classification.
pub trait Classify {
    spec fn classes(&self) -> Classes;

    fn is_word(&self, c: char) -> (r: bool)
        ensures
            r == (self.classes().word)(c),
    ;

    fn is_space(&self, c: char) -> (r: bool)
        ensures
            r == (self.classes().space)(c),
    ;

    fn lower(&self, c: char) -> (r: Vec<char>)
        ensures
            r@ == (self.classes().lower)(c),
    ;
}

/// The classification of [`std_classes`].
pub struct StdClasses;

impl Classify for StdClasses {
    open spec fn classes(&self) -> Classes {
        std_classes()
    }

    fn is_word(&self, c: char) -> (r: bool) {
        is_word_character(c) && !is_whitespace(c)
    }

    fn is_space(&self, c: char) -> (r: bool) {
        is_whitespace(c)
    }

    fn lower(&self, c: char) -> (r: Vec<char>) {
        lowercase(c)
    }
}

/// How one character is classified.
pub struct CharClass {
    pub ch: char,
    pub word: bool,
    pub space: bool,
    pub lower: Vec<char>,
}

/// A classification given as a list; the first entry for a character
/// counts. A character without an entry is neither a word character nor
/// whitespace, and is its own lowercase.
pub struct ClassTable {
    pub entries: Vec<CharClass>,
}

pub open spec fn table_word(es: Seq<CharClass>, i: int, c: char) -> bool
    decreases es.len() - i,
{
    if i < 0 || i >= es.len() {
        false
    } else if es[i].ch == c {
        es[i].word
    } else {
        table_word(es, i + 1, c)
    }
}

pub open spec fn table_space(es: Seq<CharClass>, i: int, c: char) -> bool
    decreases es.len() - i,
{
    if i < 0 || i >= es.len() {
        false
    } else if es[i].ch == c {
        es[i].space
    } else {
        table_space(es, i + 1, c)
    }
}

pub open spec fn table_lower(es: Seq<CharClass>, i: int, c: char) -> Seq<char>
    decreases es.len() - i,
{
    if i < 0 || i >= es.len() {
        seq![c]
    } else if es[i].ch == c {
        es[i].lower@
    } else {
        table_lower(es, i + 1, c)
    }
}

impl ClassTable {
    /// The index of the first entry for `c`, if any.
    fn find(&self, c: char) -> (r: Option<usize>)
        ensures
            match r {
                Some(i) => i < self.entries@.len() && self.entries@[i as int].ch == c
                    && table_word(self.entries@, 0, c) == self.entries@[i as int].word
                    && table_space(self.entries@, 0, c) == self.entries@[i as int].space
                    && table_lower(self.entries@, 0, c) == self.entries@[i as int].lower@,
                None => !table_word(self.entries@, 0, c) && !table_space(self.entries@, 0, c)
                    && table_lower(self.entries@, 0, c) == seq![c],
            },
    {
        let mut i: usize = 0;
        while i < self.entries.len()
            invariant
                i <= self.entries@.len(),
                table_word(self.entries@, 0, c) == table_word(self.entries@, i as int, c),
                table_space(self.entries@, 0, c) == table_space(self.entries@, i as int, c),
                table_lower(self.entries@, 0, c) == table_lower(self.entries@, i as int, c),
            decreases self.entries@.len() - i,
        {
            if self.entries[i].ch == c {
                return Some(i);
            }
            i += 1;
        }
        None
    }
}

impl Classify for ClassTable {
    open spec fn classes(&self) -> Classes {
        Classes {
            word: |c: char| table_word(self.entries@, 0, c),
            space: |c: char| table_space(self.entries@, 0, c),
            lower: |c: char| table_lower(self.entries@, 0, c),
        }
    }

    fn is_word(&self, c: char) -> (r: bool) {
        match self.find(c) {
            Some(i) => self.entries[i].word,
            None => false,
        }
    }

    fn is_space(&self, c: char) -> (r: bool) {
        match self.find(c) {
            Some(i) => self.entries[i].space,
            None => false,
        }
    }

    fn lower(&self, c: char) -> (r: Vec<char>) {
        match self.find(c) {
            Some(i) => copy_chars(&self.entries[i].lower),
            None => vec![c],
        }
    }
}

fn copy_chars(v: &Vec<char>) -> (r: Vec<char>)
    ensures
        r@ == v@,
{
    let mut r: Vec<char> = Vec::new();
    let mut k: usize = 0;
    while k < v.len()
        invariant
            k <= v.len(),
            r@ == v@.take(k as int),
        decreases v.len() - k,
    {
        r.push(v[k]);
        k += 1;
        assert(r@ =~= v@.take(k as int));
    }
    assert(v@.take(v.len() as int) =~= v@);
    r
}

} // verus!
