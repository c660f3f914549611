//! The filler words, stated as a pattern on ASCII-lowercased letters,
//! and the proof that the cleaner's test recognises exactly them.

use vstd::prelude::*;
use crate::filler_cleaner::{
    is_euh, is_filler, is_heu, is_hum, is_mm, is_short_filler, run_end, um_end,
};

verus! {

/// ASCII lowercase of a character.
pub open spec fn ascii_lower(c: char) -> char {
    if 'A' <= c && c <= 'Z' {
        ((c as u32) + 32) as char
    } else {
        c
    }
}

/// A word with its ASCII letters lowercased.
pub open spec fn lower_ascii(w: Seq<char>) -> Seq<char> {
    w.map_values(|c: char| ascii_lower(c))
}

/// Every position in `[a, b)` holds `c`.
pub open spec fn all_are(l: Seq<char>, a: int, b: int, c: char) -> bool {
    forall|k: int| a <= k < b ==> l[k] == c
}

/// The pattern `e+u+h+ | h+e+u+h* | h+[um]+m+ | m{2,} | bah | ben | [ao]h`
/// on a lowercase word.
pub open spec fn filler_shape(l: Seq<char>) -> bool {
    let n = l.len() as int;
    ||| exists|i: int, j: int|
        0 < i < j < n && all_are(l, 0, i, 'e') && all_are(l, i, j, 'u') && all_are(l, j, n, 'h')
    ||| exists|i: int, j: int, m: int|
        0 < i < j < m <= n && all_are(l, 0, i, 'h') && all_are(l, i, j, 'e') && all_are(
            l,
            j,
            m,
            'u',
        ) && all_are(l, m, n, 'h')
    ||| exists|i: int|
        0 < i && i + 2 <= n && all_are(l, 0, i, 'h') && (forall|k: int|
            i <= k < n ==> l[k] == 'u' || l[k] == 'm') && l[n - 1] == 'm'
    ||| n >= 2 && all_are(l, 0, n, 'm')
    ||| l == seq!['b', 'a', 'h']
    ||| l == seq!['b', 'e', 'n']
    ||| l == seq!['a', 'h']
    ||| l == seq!['o', 'h']
}

/// A filler word, in any ASCII case.
pub open spec fn is_filler_word(w: Seq<char>) -> bool {
    filler_shape(lower_ascii(w))
}

proof fn lemma_fold(c: char)
    ensures
        (ascii_lower(c) == 'e') == (c == 'e' || c == 'E'),
        (ascii_lower(c) == 'u') == (c == 'u' || c == 'U'),
        (ascii_lower(c) == 'h') == (c == 'h' || c == 'H'),
        (ascii_lower(c) == 'm') == (c == 'm' || c == 'M'),
        (ascii_lower(c) == 'b') == (c == 'b' || c == 'B'),
        (ascii_lower(c) == 'a') == (c == 'a' || c == 'A'),
        (ascii_lower(c) == 'n') == (c == 'n' || c == 'N'),
        (ascii_lower(c) == 'o') == (c == 'o' || c == 'O'),
{
}

proof fn lemma_fold_all(w: Seq<char>)
    ensures
        lower_ascii(w).len() == w.len(),
        forall|k: int| 0 <= k < w.len() ==> #[trigger] lower_ascii(w)[k] == ascii_lower(w[k]),
        forall|k: int|
            0 <= k < w.len() ==> {
                &&& (lower_ascii(w)[k] == 'e') == (w[k] == 'e' || w[k] == 'E')
                &&& (lower_ascii(w)[k] == 'u') == (w[k] == 'u' || w[k] == 'U')
                &&& (lower_ascii(w)[k] == 'h') == (w[k] == 'h' || w[k] == 'H')
                &&& (lower_ascii(w)[k] == 'm') == (w[k] == 'm' || w[k] == 'M')
                &&& (lower_ascii(w)[k] == 'b') == (w[k] == 'b' || w[k] == 'B')
                &&& (lower_ascii(w)[k] == 'a') == (w[k] == 'a' || w[k] == 'A')
                &&& (lower_ascii(w)[k] == 'n') == (w[k] == 'n' || w[k] == 'N')
                &&& (lower_ascii(w)[k] == 'o') == (w[k] == 'o' || w[k] == 'O')
            },
{
    assert forall|k: int| 0 <= k < w.len() implies {
        &&& (lower_ascii(w)[k] == 'e') == (w[k] == 'e' || w[k] == 'E')
        &&& (lower_ascii(w)[k] == 'u') == (w[k] == 'u' || w[k] == 'U')
        &&& (lower_ascii(w)[k] == 'h') == (w[k] == 'h' || w[k] == 'H')
        &&& (lower_ascii(w)[k] == 'm') == (w[k] == 'm' || w[k] == 'M')
        &&& (lower_ascii(w)[k] == 'b') == (w[k] == 'b' || w[k] == 'B')
        &&& (lower_ascii(w)[k] == 'a') == (w[k] == 'a' || w[k] == 'A')
        &&& (lower_ascii(w)[k] == 'n') == (w[k] == 'n' || w[k] == 'N')
        &&& (lower_ascii(w)[k] == 'o') == (w[k] == 'o' || w[k] == 'O')
    } by {
        lemma_fold(w[k]);
    }
}

proof fn lemma_run_end_props(w: Seq<char>, i: int, lo: char, up: char)
    requires
        0 <= i <= w.len(),
    ensures
        i <= run_end(w, i, lo, up) <= w.len(),
        forall|k: int| i <= k < run_end(w, i, lo, up) ==> #[trigger] w[k] == lo || w[k] == up,
        run_end(w, i, lo, up) < w.len() ==> !(w[run_end(w, i, lo, up)] == lo || w[run_end(
            w,
            i,
            lo,
            up,
        )] == up),
    decreases w.len() - i,
{
    if i < w.len() && (w[i] == lo || w[i] == up) {
        lemma_run_end_props(w, i + 1, lo, up);
    }
}

proof fn lemma_run_end_at(w: Seq<char>, i: int, lo: char, up: char, x: int)
    requires
        0 <= i <= x <= w.len(),
        forall|k: int| i <= k < x ==> #[trigger] w[k] == lo || w[k] == up,
        x == w.len() || !(w[x] == lo || w[x] == up),
    ensures
        run_end(w, i, lo, up) == x,
    decreases x - i,
{
    if i < x {
        lemma_run_end_at(w, i + 1, lo, up, x);
    }
}

proof fn lemma_um_end_props(w: Seq<char>, i: int)
    requires
        0 <= i <= w.len(),
    ensures
        i <= um_end(w, i) <= w.len(),
        forall|k: int|
            i <= k < um_end(w, i) ==> #[trigger] w[k] == 'u' || w[k] == 'U' || w[k] == 'm' || w[k]
                == 'M',
        um_end(w, i) < w.len() ==> !(w[um_end(w, i)] == 'u' || w[um_end(w, i)] == 'U' || w[um_end(
            w,
            i,
        )] == 'm' || w[um_end(w, i)] == 'M'),
    decreases w.len() - i,
{
    if i < w.len() && (w[i] == 'u' || w[i] == 'U' || w[i] == 'm' || w[i] == 'M') {
        lemma_um_end_props(w, i + 1);
    }
}

proof fn lemma_um_end_at(w: Seq<char>, i: int)
    requires
        0 <= i <= w.len(),
        forall|k: int|
            i <= k < w.len() ==> #[trigger] w[k] == 'u' || w[k] == 'U' || w[k] == 'm' || w[k]
                == 'M',
    ensures
        um_end(w, i) == w.len(),
    decreases w.len() - i,
{
    if i < w.len() {
        lemma_um_end_at(w, i + 1);
    }
}

proof fn lemma_filler_sound(w: Seq<char>)
    requires
        is_filler(w),
    ensures
        is_filler_word(w),
{
    let l = lower_ascii(w);
    let n = w.len() as int;
    lemma_fold_all(w);
    if is_euh(w) {
        let a = run_end(w, 0, 'e', 'E');
        let b = run_end(w, a, 'u', 'U');
        lemma_run_end_props(w, 0, 'e', 'E');
        lemma_run_end_props(w, a, 'u', 'U');
        lemma_run_end_props(w, b, 'h', 'H');
        assert(all_are(l, 0, a, 'e'));
        assert(all_are(l, a, b, 'u'));
        assert(all_are(l, b, n, 'h'));
    } else if is_heu(w) {
        let a = run_end(w, 0, 'h', 'H');
        let b = run_end(w, a, 'e', 'E');
        let c = run_end(w, b, 'u', 'U');
        lemma_run_end_props(w, 0, 'h', 'H');
        lemma_run_end_props(w, a, 'e', 'E');
        lemma_run_end_props(w, b, 'u', 'U');
        lemma_run_end_props(w, c, 'h', 'H');
        assert(all_are(l, 0, a, 'h'));
        assert(all_are(l, a, b, 'e'));
        assert(all_are(l, b, c, 'u'));
        assert(all_are(l, c, n, 'h'));
    } else if is_hum(w) {
        let a = run_end(w, 0, 'h', 'H');
        lemma_run_end_props(w, 0, 'h', 'H');
        lemma_um_end_props(w, a);
        assert(all_are(l, 0, a, 'h'));
        assert(forall|k: int| a <= k < n ==> l[k] == 'u' || l[k] == 'm');
    } else if is_mm(w) {
        lemma_run_end_props(w, 0, 'm', 'M');
        assert(all_are(l, 0, n, 'm'));
    } else {
        assert(is_short_filler(w));
        if n == 3 && (w[1] == 'a' || w[1] == 'A') {
            assert(l =~= seq!['b', 'a', 'h']);
        } else if n == 3 {
            assert(l =~= seq!['b', 'e', 'n']);
        } else if w[0] == 'a' || w[0] == 'A' {
            assert(l =~= seq!['a', 'h']);
        } else {
            assert(l =~= seq!['o', 'h']);
        }
    }
}

proof fn lemma_filler_complete(w: Seq<char>)
    requires
        is_filler_word(w),
    ensures
        is_filler(w),
{
    let l = lower_ascii(w);
    let n = w.len() as int;
    lemma_fold_all(w);
    if exists|i: int, j: int|
        0 < i < j < n && all_are(l, 0, i, 'e') && all_are(l, i, j, 'u') && all_are(l, j, n, 'h') {
        let (i, j) = choose|i: int, j: int|
            0 < i < j < n && all_are(l, 0, i, 'e') && all_are(l, i, j, 'u') && all_are(
                l,
                j,
                n,
                'h',
            );
        assert(l[i] == 'u' && l[j] == 'h');
        lemma_run_end_at(w, 0, 'e', 'E', i);
        lemma_run_end_at(w, i, 'u', 'U', j);
        lemma_run_end_at(w, j, 'h', 'H', n);
        assert(is_euh(w));
    } else if exists|i: int, j: int, m: int|
        0 < i < j < m <= n && all_are(l, 0, i, 'h') && all_are(l, i, j, 'e') && all_are(
            l,
            j,
            m,
            'u',
        ) && all_are(l, m, n, 'h') {
        let (i, j, m) = choose|i: int, j: int, m: int|
            0 < i < j < m <= n && all_are(l, 0, i, 'h') && all_are(l, i, j, 'e') && all_are(
                l,
                j,
                m,
                'u',
            ) && all_are(l, m, n, 'h');
        assert(l[i] == 'e' && l[j] == 'u');
        lemma_run_end_at(w, 0, 'h', 'H', i);
        lemma_run_end_at(w, i, 'e', 'E', j);
        if m < n {
            assert(l[m] == 'h');
        }
        lemma_run_end_at(w, j, 'u', 'U', m);
        lemma_run_end_at(w, m, 'h', 'H', n);
        assert(is_heu(w));
    } else if exists|i: int|
        0 < i && i + 2 <= n && all_are(l, 0, i, 'h') && (forall|k: int|
            i <= k < n ==> l[k] == 'u' || l[k] == 'm') && l[n - 1] == 'm' {
        let i = choose|i: int|
            0 < i && i + 2 <= n && all_are(l, 0, i, 'h') && (forall|k: int|
                i <= k < n ==> l[k] == 'u' || l[k] == 'm') && l[n - 1] == 'm';
        assert(l[i] == 'u' || l[i] == 'm');
        lemma_run_end_at(w, 0, 'h', 'H', i);
        assert forall|k: int| i <= k < n implies #[trigger] w[k] == 'u' || w[k] == 'U' || w[k]
            == 'm' || w[k] == 'M' by {
            assert(l[k] == 'u' || l[k] == 'm');
        }
        lemma_um_end_at(w, i);
        assert(is_hum(w));
    } else if n >= 2 && all_are(l, 0, n, 'm') {
        lemma_run_end_at(w, 0, 'm', 'M', n);
        assert(is_mm(w));
    } else {
        if l == seq!['b', 'a', 'h'] {
            assert(l[0] == 'b' && l[1] == 'a' && l[2] == 'h');
        } else if l == seq!['b', 'e', 'n'] {
            assert(l[0] == 'b' && l[1] == 'e' && l[2] == 'n');
        } else if l == seq!['a', 'h'] {
            assert(l[0] == 'a' && l[1] == 'h');
        } else {
            assert(l == seq!['o', 'h']);
            assert(l[0] == 'o' && l[1] == 'h');
        }
        assert(is_short_filler(w));
    }
}

/// The cleaner's filler test recognises exactly the words that, ASCII
/// letters lowercased, match
/// `e+u+h+ | h+e+u+h* | h+[um]+m+ | m{2,} | bah | ben | [ao]h`.
pub proof fn lemma_filler_test_matches_pattern(w: Seq<char>)
    ensures
        is_filler(w) == is_filler_word(w),
{
    if is_filler(w) {
        lemma_filler_sound(w);
    }
    if is_filler_word(w) {
        lemma_filler_complete(w);
    }
}

} // verus!
