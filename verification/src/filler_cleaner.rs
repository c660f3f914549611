//! Removal of French filler words and of immediate word repetitions
//! from transcribed text.
//!
//! A *word* is a maximal run of word characters. How characters are
//! classified (word character, whitespace, lowercase expansion) is a
//! parameter [`Classes`] of every definition here; transcripts are cleaned
//! with [`std_classes`]: the Unicode `\w` class for words and `std`'s
//! whitespace and lowercase. The cleaning runs four passes, in this order:
//! 1. every word that is a filler (`euh`, `heu`, `hum`, `hmm`, `mm`, `bah`,
//!    `ben`, `ah`, `oh` and their stretched forms, in any ASCII case) is
//!    deleted, the characters around it stay;
//! 2. a word followed, across whitespace only, by the same word (compared
//!    character by character through `char::to_lowercase`) one or more
//!    times is kept once, the repetitions and the whitespace before them go;
//! 3. every run of two or more spaces becomes one space;
//! 4. leading and trailing whitespace is removed.

use vstd::prelude::*;
use crate::chars::{chars_of, string_from_chars};
use crate::classes::{
    lemma_std_classes_valid, std_classes, ClassTable, Classes, Classify, StdClasses,
};

verus! {

// ---------------------------------------------------------------------
// Words
// ---------------------------------------------------------------------

/// A character that belongs to a word.
pub open spec fn is_word_char(cl: Classes, c: char) -> bool {
    (cl.word)(c)
}

/// A whitespace character.
pub open spec fn is_space(cl: Classes, c: char) -> bool {
    (cl.space)(c)
}

/// The lowercase expansion of a character.
pub open spec fn lower_of(cl: Classes, c: char) -> Seq<char> {
    (cl.lower)(c)
}

/// The first index at or after `i` that does not hold a word character
/// (or `i` itself when `i` is out of range).
pub open spec fn word_end(cl: Classes, s: Seq<char>, i: int) -> int
    decreases s.len() - i,
{
    if 0 <= i < s.len() && is_word_char(cl, s[i]) {
        word_end(cl, s, i + 1)
    } else {
        i
    }
}

/// The first index at or after `i` that does not hold whitespace
/// (or `i` itself when `i` is out of range).
pub open spec fn ws_end(cl: Classes, s: Seq<char>, i: int) -> int
    decreases s.len() - i,
{
    if 0 <= i < s.len() && is_space(cl, s[i]) {
        ws_end(cl, s, i + 1)
    } else {
        i
    }
}

/// The index after the last non-whitespace character before `j`
/// (`0` when everything before `j` is whitespace).
pub open spec fn ws_start_back(cl: Classes, s: Seq<char>, j: int) -> int
    decreases j,
{
    if 0 < j <= s.len() && is_space(cl, s[j - 1]) {
        ws_start_back(cl, s, j - 1)
    } else {
        j
    }
}

pub proof fn lemma_word_end_bounds(cl: Classes, s: Seq<char>, i: int)
    requires
        0 <= i <= s.len(),
    ensures
        i <= word_end(cl, s, i) <= s.len(),
        i < s.len() && is_word_char(cl, s[i]) ==> i < word_end(cl, s, i),
    decreases s.len() - i,
{
    if i < s.len() && is_word_char(cl, s[i]) {
        lemma_word_end_bounds(cl, s, i + 1);
    }
}

pub proof fn lemma_ws_end_bounds(cl: Classes, s: Seq<char>, i: int)
    requires
        0 <= i <= s.len(),
    ensures
        i <= ws_end(cl, s, i) <= s.len(),
    decreases s.len() - i,
{
    if i < s.len() && is_space(cl, s[i]) {
        lemma_ws_end_bounds(cl, s, i + 1);
    }
}

pub proof fn lemma_ws_start_back_bounds(cl: Classes, s: Seq<char>, j: int)
    requires
        0 <= j <= s.len(),
    ensures
        0 <= ws_start_back(cl, s, j) <= j,
    decreases j,
{
    if 0 < j && is_space(cl, s[j - 1]) {
        lemma_ws_start_back_bounds(cl, s, j - 1);
    }
}

// ---------------------------------------------------------------------
// Filler words
// ---------------------------------------------------------------------

/// The first index at or after `i` whose character is neither `lo` nor `up`.
pub open spec fn run_end(w: Seq<char>, i: int, lo: char, up: char) -> int
    decreases w.len() - i,
{
    if 0 <= i < w.len() && (w[i] == lo || w[i] == up) {
        run_end(w, i + 1, lo, up)
    } else {
        i
    }
}

/// The first index at or after `i` whose character is none of `u U m M`.
pub open spec fn um_end(w: Seq<char>, i: int) -> int
    decreases w.len() - i,
{
    if 0 <= i < w.len() && (w[i] == 'u' || w[i] == 'U' || w[i] == 'm' || w[i] == 'M') {
        um_end(w, i + 1)
    } else {
        i
    }
}

/// `e+u+h+`: `euh`, `euuh`, `euhh`, ...
pub open spec fn is_euh(w: Seq<char>) -> bool {
    let a = run_end(w, 0, 'e', 'E');
    let b = run_end(w, a, 'u', 'U');
    let c = run_end(w, b, 'h', 'H');
    0 < a && a < b && b < c && c == w.len()
}

/// `h+e+u+h*`: `heu`, `heuh`, `hheu`, ...
pub open spec fn is_heu(w: Seq<char>) -> bool {
    let a = run_end(w, 0, 'h', 'H');
    let b = run_end(w, a, 'e', 'E');
    let c = run_end(w, b, 'u', 'U');
    let d = run_end(w, c, 'h', 'H');
    0 < a && a < b && b < c && d == w.len()
}

/// `h+[um]+m+`: `hum`, `hmm`, `hmmm`, `humm`, ...
pub open spec fn is_hum(w: Seq<char>) -> bool {
    let a = run_end(w, 0, 'h', 'H');
    let b = um_end(w, a);
    0 < a && b == w.len() && b - a >= 2 && (w[b - 1] == 'm' || w[b - 1] == 'M')
}

/// `m{2,}`: `mm`, `mmm`, ...
pub open spec fn is_mm(w: Seq<char>) -> bool {
    w.len() >= 2 && run_end(w, 0, 'm', 'M') == w.len()
}

/// `bah`, `ben`, `ah`, `oh`.
pub open spec fn is_short_filler(w: Seq<char>) -> bool {
    ||| (w.len() == 3 && (w[0] == 'b' || w[0] == 'B') && (
        ((w[1] == 'a' || w[1] == 'A') && (w[2] == 'h' || w[2] == 'H'))
        || ((w[1] == 'e' || w[1] == 'E') && (w[2] == 'n' || w[2] == 'N'))))
    ||| (w.len() == 2 && (w[0] == 'a' || w[0] == 'A' || w[0] == 'o' || w[0] == 'O')
        && (w[1] == 'h' || w[1] == 'H'))
}

/// A filler word, in any ASCII case.
pub open spec fn is_filler(w: Seq<char>) -> bool {
    is_euh(w) || is_heu(w) || is_hum(w) || is_mm(w) || is_short_filler(w)
}

// ---------------------------------------------------------------------
// The four passes
// ---------------------------------------------------------------------

/// Pass 1, from index `i` on: filler words are dropped, everything else kept.
pub open spec fn strip_from(cl: Classes, s: Seq<char>, i: int) -> Seq<char>
    decreases s.len() - i,
{
    if i < 0 || i >= s.len() {
        Seq::empty()
    } else if !is_word_char(cl, s[i]) {
        seq![s[i]] + strip_from(cl, s, i + 1)
    } else {
        let j = word_end(cl, s, i);
        proof {
            lemma_word_end_bounds(cl, s, i);
        }
        (if is_filler(s.subrange(i, j)) {
            Seq::empty()
        } else {
            s.subrange(i, j)
        }) + strip_from(cl, s, j)
    }
}

pub open spec fn strip_fillers(cl: Classes, s: Seq<char>) -> Seq<char> {
    strip_from(cl, s, 0)
}

/// Two words are the same up to case: equal length and, position by
/// position, the same lowercase expansion.
pub open spec fn same_word(cl: Classes, a: Seq<char>, b: Seq<char>) -> bool {
    &&& a.len() == b.len()
    &&& forall|m: int| 0 <= m < a.len() ==> lower_of(cl, #[trigger] a[m]) == lower_of(cl, b[m])
}

/// `i` is just after an occurrence of the word `w`; the end of the run of
/// repetitions of `w` (each one preceded by whitespace only) that follows.
pub open spec fn repeat_end(cl: Classes, s: Seq<char>, w: Seq<char>, i: int) -> int
    decreases s.len() - i,
{
    if 0 <= i < s.len() {
        let g = ws_end(cl, s, i);
        proof {
            lemma_ws_end_bounds(cl, s, i);
        }
        if g > i && g < s.len() && is_word_char(cl, s[g]) && same_word(cl, 
            s.subrange(g, word_end(cl, s, g)),
            w,
        ) {
            proof {
                lemma_word_end_bounds(cl, s, g);
            }
            repeat_end(cl, s, w, word_end(cl, s, g))
        } else {
            i
        }
    } else {
        i
    }
}

/// Pass 2, from index `i` on: each word keeps its first occurrence only
/// among its immediate repetitions.
pub open spec fn collapse_from(cl: Classes, s: Seq<char>, i: int) -> Seq<char>
    decreases s.len() - i,
{
    if i < 0 || i >= s.len() {
        Seq::empty()
    } else if !is_word_char(cl, s[i]) {
        seq![s[i]] + collapse_from(cl, s, i + 1)
    } else {
        let j = word_end(cl, s, i);
        proof {
            lemma_word_end_bounds(cl, s, i);
            lemma_repeat_end_bounds(cl, s, s.subrange(i, j), j);
        }
        s.subrange(i, j) + collapse_from(cl, s, repeat_end(cl, s, s.subrange(i, j), j))
    }
}

pub open spec fn collapse_repeats(cl: Classes, s: Seq<char>) -> Seq<char> {
    collapse_from(cl, s, 0)
}

/// Pass 3, from index `i` on: a space followed by a space is dropped.
pub open spec fn spaces_from(s: Seq<char>, i: int) -> Seq<char>
    decreases s.len() - i,
{
    if i < 0 || i >= s.len() {
        Seq::empty()
    } else if s[i] == ' ' && i + 1 < s.len() && s[i + 1] == ' ' {
        spaces_from(s, i + 1)
    } else {
        seq![s[i]] + spaces_from(s, i + 1)
    }
}

pub open spec fn collapse_spaces(s: Seq<char>) -> Seq<char> {
    spaces_from(s, 0)
}

/// Pass 4: leading and trailing whitespace removed.
pub open spec fn trim(cl: Classes, s: Seq<char>) -> Seq<char> {
    let a = ws_end(cl, s, 0);
    let b = ws_start_back(cl, s, s.len() as int);
    if a < b {
        s.subrange(a, b)
    } else {
        Seq::empty()
    }
}

/// No filler word occurs from index `i` on (a word character at `i`
/// is read as the start of a word).
pub open spec fn no_fillers_from(cl: Classes, s: Seq<char>, i: int) -> bool
    decreases s.len() - i,
{
    if i < 0 || i >= s.len() {
        true
    } else if !is_word_char(cl, s[i]) {
        no_fillers_from(cl, s, i + 1)
    } else {
        let j = word_end(cl, s, i);
        proof {
            lemma_word_end_bounds(cl, s, i);
        }
        !is_filler(s.subrange(i, j)) && no_fillers_from(cl, s, j)
    }
}

/// No word from index `i` on is followed, across whitespace only, by the
/// same word.
pub open spec fn no_repeats_from(cl: Classes, s: Seq<char>, i: int) -> bool
    decreases s.len() - i,
{
    if i < 0 || i >= s.len() {
        true
    } else if !is_word_char(cl, s[i]) {
        no_repeats_from(cl, s, i + 1)
    } else {
        let j = word_end(cl, s, i);
        proof {
            lemma_word_end_bounds(cl, s, i);
        }
        repeat_end(cl, s, s.subrange(i, j), j) == j && no_repeats_from(cl, s, j)
    }
}

/// No two spaces in a row.
pub open spec fn no_double_space(s: Seq<char>) -> bool {
    forall|k: int| 0 <= k && k + 1 < s.len() ==> !(#[trigger] s[k] == ' ' && s[k + 1] == ' ')
}

/// No whitespace at either end.
pub open spec fn is_trimmed(cl: Classes, s: Seq<char>) -> bool {
    s.len() == 0 || (!is_space(cl, s[0]) && !is_space(cl, s[s.len() - 1]))
}

/// A clean transcript: trimmed, without double spaces, filler words or
/// immediately repeated words.
pub open spec fn is_clean(cl: Classes, s: Seq<char>) -> bool {
    &&& is_trimmed(cl, s)
    &&& no_double_space(s)
    &&& no_fillers_from(cl, s, 0)
    &&& no_repeats_from(cl, s, 0)
}

/// The cleaned form of a transcript.
pub open spec fn cleaned(cl: Classes, text: Seq<char>) -> Seq<char> {
    trim(cl, collapse_spaces(collapse_repeats(cl, strip_fillers(cl, text))))
}

pub proof fn lemma_repeat_end_bounds(cl: Classes, s: Seq<char>, w: Seq<char>, i: int)
    requires
        0 <= i <= s.len(),
    ensures
        i <= repeat_end(cl, s, w, i) <= s.len(),
    decreases s.len() - i,
{
    if i < s.len() {
        let g = ws_end(cl, s, i);
        lemma_ws_end_bounds(cl, s, i);
        if g > i && g < s.len() && is_word_char(cl, s[g]) && same_word(cl, 
            s.subrange(g, word_end(cl, s, g)),
            w,
        ) {
            lemma_word_end_bounds(cl, s, g);
            lemma_repeat_end_bounds(cl, s, w, word_end(cl, s, g));
        }
    }
}

// ---------------------------------------------------------------------
// Executable passes
// ---------------------------------------------------------------------

fn word_end_exec<C: Classify>(cls: &C, s: &Vec<char>, i: usize) -> (j: usize)
    requires
        i <= s.len(),
    ensures
        j as int == word_end(cls.classes(), s@, i as int),
        i <= j <= s.len(),
{
    let mut j = i;
    while j < s.len() && cls.is_word(s[j])
        invariant
            i <= j <= s.len(),
            word_end(cls.classes(), s@, j as int) == word_end(cls.classes(), s@, i as int),
        decreases s.len() - j,
    {
        j += 1;
    }
    j
}

fn ws_end_exec<C: Classify>(cls: &C, s: &Vec<char>, i: usize) -> (j: usize)
    requires
        i <= s.len(),
    ensures
        j as int == ws_end(cls.classes(), s@, i as int),
        i <= j <= s.len(),
{
    let mut j = i;
    while j < s.len() && cls.is_space(s[j])
        invariant
            i <= j <= s.len(),
            ws_end(cls.classes(), s@, j as int) == ws_end(cls.classes(), s@, i as int),
        decreases s.len() - j,
    {
        j += 1;
    }
    j
}

fn ws_start_back_exec<C: Classify>(cls: &C, s: &Vec<char>) -> (j: usize)
    ensures
        j as int == ws_start_back(cls.classes(), s@, s.len() as int),
        j <= s.len(),
{
    let mut j = s.len();
    while j > 0 && cls.is_space(s[j - 1])
        invariant
            j <= s.len(),
            ws_start_back(cls.classes(), s@, j as int) == ws_start_back(cls.classes(), s@, s.len() as int),
        decreases j,
    {
        j -= 1;
    }
    j
}

fn copy_range(s: &Vec<char>, i: usize, j: usize) -> (w: Vec<char>)
    requires
        i <= j <= s.len(),
    ensures
        w@ == s@.subrange(i as int, j as int),
{
    let mut w: Vec<char> = Vec::new();
    let mut k = i;
    while k < j
        invariant
            i <= k <= j <= s.len(),
            w@ == s@.subrange(i as int, k as int),
        decreases j - k,
    {
        w.push(s[k]);
        k += 1;
        assert(w@ =~= s@.subrange(i as int, k as int));
    }
    w
}

fn append_chars(out: &mut Vec<char>, w: &Vec<char>)
    ensures
        final(out)@ == old(out)@ + w@,
{
    let mut k: usize = 0;
    while k < w.len()
        invariant
            k <= w.len(),
            out@ == old(out)@ + w@.take(k as int),
        decreases w.len() - k,
    {
        out.push(w[k]);
        k += 1;
        assert(out@ =~= old(out)@ + w@.take(k as int));
    }
    assert(w@.take(w.len() as int) =~= w@);
}

fn run_end_exec(w: &Vec<char>, i: usize, lo: char, up: char) -> (j: usize)
    requires
        i <= w.len(),
    ensures
        j as int == run_end(w@, i as int, lo, up),
        i <= j <= w.len(),
{
    let mut j = i;
    while j < w.len() && (w[j] == lo || w[j] == up)
        invariant
            i <= j <= w.len(),
            run_end(w@, j as int, lo, up) == run_end(w@, i as int, lo, up),
        decreases w.len() - j,
    {
        j += 1;
    }
    j
}

fn um_end_exec(w: &Vec<char>, i: usize) -> (j: usize)
    requires
        i <= w.len(),
    ensures
        j as int == um_end(w@, i as int),
        i <= j <= w.len(),
{
    let mut j = i;
    while j < w.len() && (w[j] == 'u' || w[j] == 'U' || w[j] == 'm' || w[j] == 'M')
        invariant
            i <= j <= w.len(),
            um_end(w@, j as int) == um_end(w@, i as int),
        decreases w.len() - j,
    {
        j += 1;
    }
    j
}

fn is_filler_exec(w: &Vec<char>) -> (r: bool)
    ensures
        r == is_filler(w@),
{
    let n = w.len();
    // e+u+h+
    let a = run_end_exec(w, 0, 'e', 'E');
    let b = run_end_exec(w, a, 'u', 'U');
    let c = run_end_exec(w, b, 'h', 'H');
    let euh = 0 < a && a < b && b < c && c == n;
    // h+e+u+h*
    let a2 = run_end_exec(w, 0, 'h', 'H');
    let b2 = run_end_exec(w, a2, 'e', 'E');
    let c2 = run_end_exec(w, b2, 'u', 'U');
    let d2 = run_end_exec(w, c2, 'h', 'H');
    let heu = 0 < a2 && a2 < b2 && b2 < c2 && d2 == n;
    // h+[um]+m+
    let b3 = um_end_exec(w, a2);
    let hum = 0 < a2 && b3 == n && b3 - a2 >= 2 && (w[b3 - 1] == 'm' || w[b3 - 1] == 'M');
    // m{2,}
    let mm = n >= 2 && run_end_exec(w, 0, 'm', 'M') == n;
    // bah, ben, ah, oh
    let short = (n == 3 && (w[0] == 'b' || w[0] == 'B') && (((w[1] == 'a' || w[1] == 'A') && (
    w[2] == 'h' || w[2] == 'H')) || ((w[1] == 'e' || w[1] == 'E') && (w[2] == 'n' || w[2]
        == 'N')))) || (n == 2 && (w[0] == 'a' || w[0] == 'A' || w[0] == 'o' || w[0] == 'O') && (
    w[1] == 'h' || w[1] == 'H'));
    euh || heu || hum || mm || short
}

/// Pass 1 on a vector of characters.
fn strip_fillers_exec<C: Classify>(cls: &C, s: &Vec<char>) -> (out: Vec<char>)
    ensures
        out@ == strip_fillers(cls.classes(), s@),
{
    let n = s.len();
    let mut out: Vec<char> = Vec::new();
    let mut i: usize = 0;
    while i < n
        invariant
            n == s.len(),
            i <= n,
            out@ + strip_from(cls.classes(), s@, i as int) == strip_fillers(cls.classes(), s@),
        decreases n - i,
    {
        if !cls.is_word(s[i]) {
            assert(strip_from(cls.classes(), s@, i as int) == seq![s@[i as int]] + strip_from(cls.classes(), s@, i + 1));
            out.push(s[i]);
            assert(out@ + strip_from(cls.classes(), s@, i + 1) =~= strip_fillers(cls.classes(), s@));
            i += 1;
        } else {
            let j = word_end_exec(cls, s, i);
            proof {
                lemma_word_end_bounds(cls.classes(), s@, i as int);
            }
            let w = copy_range(s, i, j);
            let ghost before = out@;
            if !is_filler_exec(&w) {
                append_chars(&mut out, &w);
                assert(out@ + strip_from(cls.classes(), s@, j as int) =~= before + strip_from(cls.classes(), s@, i as int));
            } else {
                assert(out@ + strip_from(cls.classes(), s@, j as int) =~= before + strip_from(cls.classes(), s@, i as int));
            }
            i = j;
        }
    }
    assert(out@ =~= out@ + strip_from(cls.classes(), s@, i as int));
    out
}

/// Compares two characters through their lowercase expansions.
fn same_char<C: Classify>(cls: &C, a: char, b: char) -> (r: bool)
    ensures
        r == (lower_of(cls.classes(), a) == lower_of(cls.classes(), b)),
{
    let la = cls.lower(a);
    let lb = cls.lower(b);
    if la.len() != lb.len() {
        return false;
    }
    let mut k: usize = 0;
    while k < la.len()
        invariant
            la@ == lower_of(cls.classes(), a),
            lb@ == lower_of(cls.classes(), b),
            la.len() == lb.len(),
            k <= la.len(),
            forall|m: int| 0 <= m < k ==> la@[m] == lb@[m],
        decreases la.len() - k,
    {
        if la[k] != lb[k] {
            return false;
        }
        k += 1;
    }
    assert(la@ =~= lb@);
    true
}

/// Whether `s[g..e]` is the word `w` up to case.
fn same_word_exec<C: Classify>(cls: &C, s: &Vec<char>, g: usize, e: usize, w: &Vec<char>) -> (r: bool)
    requires
        g <= e <= s.len(),
    ensures
        r == same_word(cls.classes(), s@.subrange(g as int, e as int), w@),
{
    if e - g != w.len() {
        return false;
    }
    let mut k: usize = 0;
    while k < w.len()
        invariant
            g <= e <= s.len(),
            e - g == w.len(),
            k <= w.len(),
            forall|m: int|
                0 <= m < k ==> lower_of(cls.classes(), #[trigger] s@.subrange(g as int, e as int)[m])
                    == lower_of(cls.classes(), w@[m]),
        decreases w.len() - k,
    {
        if !same_char(cls, s[g + k], w[k]) {
            assert(s@.subrange(g as int, e as int)[k as int] == s@[g + k]);
            return false;
        }
        assert(s@.subrange(g as int, e as int)[k as int] == s@[g + k]);
        k += 1;
    }
    true
}

fn repeat_end_exec<C: Classify>(cls: &C, s: &Vec<char>, w: &Vec<char>, i: usize) -> (k: usize)
    requires
        i <= s.len(),
    ensures
        k as int == repeat_end(cls.classes(), s@, w@, i as int),
        i <= k <= s.len(),
{
    let n = s.len();
    let mut k = i;
    loop
        invariant
            n == s.len(),
            i <= k <= n,
            repeat_end(cls.classes(), s@, w@, k as int) == repeat_end(cls.classes(), s@, w@, i as int),
        decreases n - k,
    {
        if k >= n {
            return k;
        }
        let g = ws_end_exec(cls, s, k);
        if g > k && g < n && cls.is_word(s[g]) {
            let e = word_end_exec(cls, s, g);
            if same_word_exec(cls, s, g, e, w) {
                proof {
                    lemma_word_end_bounds(cls.classes(), s@, g as int);
                }
                k = e;
            } else {
                return k;
            }
        } else {
            return k;
        }
    }
}

/// Pass 2 on a vector of characters.
fn collapse_repeats_exec<C: Classify>(cls: &C, s: &Vec<char>) -> (out: Vec<char>)
    ensures
        out@ == collapse_repeats(cls.classes(), s@),
{
    let n = s.len();
    let mut out: Vec<char> = Vec::new();
    let mut i: usize = 0;
    while i < n
        invariant
            n == s.len(),
            i <= n,
            out@ + collapse_from(cls.classes(), s@, i as int) == collapse_repeats(cls.classes(), s@),
        decreases n - i,
    {
        if !cls.is_word(s[i]) {
            assert(collapse_from(cls.classes(), s@, i as int) == seq![s@[i as int]] + collapse_from(cls.classes(), s@, i + 1));
            out.push(s[i]);
            assert(out@ + collapse_from(cls.classes(), s@, i + 1) =~= collapse_repeats(cls.classes(), s@));
            i += 1;
        } else {
            let j = word_end_exec(cls, s, i);
            proof {
                lemma_word_end_bounds(cls.classes(), s@, i as int);
            }
            let w = copy_range(s, i, j);
            let k = repeat_end_exec(cls, s, &w, j);
            let ghost before = out@;
            append_chars(&mut out, &w);
            assert(out@ + collapse_from(cls.classes(), s@, k as int) =~= before + collapse_from(cls.classes(), s@, i as int));
            i = k;
        }
    }
    assert(out@ =~= out@ + collapse_from(cls.classes(), s@, i as int));
    out
}

/// Pass 3 on a vector of characters.
fn collapse_spaces_exec(s: &Vec<char>) -> (out: Vec<char>)
    ensures
        out@ == collapse_spaces(s@),
{
    let n = s.len();
    let mut out: Vec<char> = Vec::new();
    let mut i: usize = 0;
    while i < n
        invariant
            n == s.len(),
            i <= n,
            out@ + spaces_from(s@, i as int) == collapse_spaces(s@),
        decreases n - i,
    {
        if s[i] == ' ' && i + 1 < n && s[i + 1] == ' ' {
            i += 1;
        } else {
            assert(spaces_from(s@, i as int) == seq![s@[i as int]] + spaces_from(s@, i + 1));
            out.push(s[i]);
            assert(out@ + spaces_from(s@, i + 1) =~= collapse_spaces(s@));
            i += 1;
        }
    }
    assert(out@ =~= out@ + spaces_from(s@, i as int));
    out
}

/// Pass 4 on a vector of characters.
fn trim_exec<C: Classify>(cls: &C, s: &Vec<char>) -> (out: Vec<char>)
    ensures
        out@ == trim(cls.classes(), s@),
{
    let a = ws_end_exec(cls, s, 0);
    let b = ws_start_back_exec(cls, s);
    if a < b {
        copy_range(s, a, b)
    } else {
        Vec::new()
    }
}

/// The four passes, with characters classified by `cls`.
fn clean_with<C: Classify>(cls: &C, text: &str) -> (result: String)
    ensures
        result@ == cleaned(cls.classes(), text@),
{
    let chars = chars_of(text);
    let stripped = strip_fillers_exec(cls, &chars);
    let collapsed = collapse_repeats_exec(cls, &stripped);
    let spaced = collapse_spaces_exec(&collapsed);
    let trimmed = trim_exec(cls, &spaced);
    string_from_chars(&trimmed)
}

/// Removes French filler words and immediate word repetitions from a
/// transcript, collapses runs of spaces and trims surrounding whitespace.
pub fn clean_fillers(text: &str) -> (result: String)
    ensures
        result@ == cleaned(std_classes(), text@),
        is_clean(std_classes(), result@),
        result@.len() <= text@.len(),
{
    proof {
        crate::cleaning_laws::lemma_cleaned_no_longer(std_classes(), text@);
        lemma_std_classes_valid();
        crate::cleaning_laws::lemma_cleaned_is_clean(std_classes(), text@);
    }
    clean_with(&StdClasses, text)
}

/// The same cleaning, with each character classified by the entries of
/// `table` (characters it does not list are neither word characters nor
/// whitespace, and are their own lowercase).
pub fn clean_fillers_classified(table: &ClassTable, text: &str) -> (result: String)
    ensures
        result@ == cleaned(table.classes(), text@),
{
    clean_with(table, text)
}

} // verus!
