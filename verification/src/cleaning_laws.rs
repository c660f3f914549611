//! Laws of transcript cleaning: a cleaned transcript is clean, a clean
//! transcript is left as it is, and cleaning twice is cleaning once.

use vstd::prelude::*;
use crate::classes::{valid_classes, Classes};
use crate::filler_words::{is_filler_word, lemma_filler_test_matches_pattern};
use crate::filler_cleaner::{
    cleaned, collapse_from, collapse_repeats, collapse_spaces, is_clean, is_filler, is_trimmed,
    is_space, is_word_char, lower_of, lemma_repeat_end_bounds, lemma_word_end_bounds, lemma_ws_end_bounds,
    lemma_ws_start_back_bounds, no_double_space, no_fillers_from, no_repeats_from, repeat_end,
    same_word, spaces_from, strip_fillers, strip_from, trim, word_end, ws_end, ws_start_back,
};

verus! {

// ---------------------------------------------------------------------
// Scans: what they stop on
// ---------------------------------------------------------------------

proof fn lemma_word_end_props(cl: Classes, s: Seq<char>, i: int)
    requires
        valid_classes(cl),
        0 <= i <= s.len(),
    ensures
        i <= word_end(cl, s, i) <= s.len(),
        forall|m: int| i <= m < word_end(cl, s, i) ==> is_word_char(cl, #[trigger] s[m]),
        word_end(cl, s, i) < s.len() ==> !is_word_char(cl, s[word_end(cl, s, i)]),
        i < s.len() && is_word_char(cl, s[i]) ==> i < word_end(cl, s, i),
    decreases s.len() - i,
{
    lemma_word_end_bounds(cl, s, i);
    if i < s.len() && is_word_char(cl, s[i]) {
        lemma_word_end_props(cl, s, i + 1);
    }
}

proof fn lemma_ws_end_props(cl: Classes, s: Seq<char>, i: int)
    requires
        valid_classes(cl),
        0 <= i <= s.len(),
    ensures
        i <= ws_end(cl, s, i) <= s.len(),
        forall|m: int| i <= m < ws_end(cl, s, i) ==> is_space(cl, #[trigger] s[m]),
        ws_end(cl, s, i) < s.len() ==> !is_space(cl, s[ws_end(cl, s, i)]),
    decreases s.len() - i,
{
    lemma_ws_end_bounds(cl, s, i);
    if i < s.len() && is_space(cl, s[i]) {
        lemma_ws_end_props(cl, s, i + 1);
    }
}

proof fn lemma_ws_start_back_props(cl: Classes, s: Seq<char>, j: int)
    requires
        valid_classes(cl),
        0 <= j <= s.len(),
    ensures
        0 <= ws_start_back(cl, s, j) <= j,
        forall|m: int| ws_start_back(cl, s, j) <= m < j ==> is_space(cl, #[trigger] s[m]),
        0 < ws_start_back(cl, s, j) ==> !is_space(cl, s[ws_start_back(cl, s, j) - 1]),
    decreases j,
{
    lemma_ws_start_back_bounds(cl, s, j);
    if 0 < j && is_space(cl, s[j - 1]) {
        lemma_ws_start_back_props(cl, s, j - 1);
    }
}

/// A repetition run ends where a word does (or at the end).
proof fn lemma_repeat_end_stop(cl: Classes, s: Seq<char>, w: Seq<char>, j: int)
    requires
        valid_classes(cl),
        0 <= j <= s.len(),
        j == s.len() || !is_word_char(cl, s[j]),
    ensures
        repeat_end(cl, s, w, j) == s.len() || !is_word_char(cl, s[repeat_end(cl, s, w, j)]),
    decreases s.len() - j,
{
    if j < s.len() {
        let g = ws_end(cl, s, j);
        lemma_ws_end_props(cl, s, j);
        if g > j && g < s.len() && is_word_char(cl, s[g]) && same_word(cl, 
            s.subrange(g, word_end(cl, s, g)),
            w,
        ) {
            lemma_word_end_props(cl, s, g);
            lemma_repeat_end_stop(cl, s, w, word_end(cl, s, g));
        }
    }
}

/// Where a repetition run ends, no further repetition follows.
proof fn lemma_repeat_end_maximal(cl: Classes, s: Seq<char>, w: Seq<char>, j: int)
    requires
        valid_classes(cl),
        0 <= j <= s.len(),
    ensures
        repeat_end(cl, s, w, repeat_end(cl, s, w, j)) == repeat_end(cl, s, w, j),
    decreases s.len() - j,
{
    if j < s.len() {
        let g = ws_end(cl, s, j);
        lemma_ws_end_props(cl, s, j);
        if g > j && g < s.len() && is_word_char(cl, s[g]) && same_word(cl, 
            s.subrange(g, word_end(cl, s, g)),
            w,
        ) {
            lemma_word_end_props(cl, s, g);
            lemma_repeat_end_maximal(cl, s, w, word_end(cl, s, g));
        }
    }
}

/// At `j`, `repeat_end` stays put exactly when no repetition follows.
proof fn lemma_repeat_end_fixed(cl: Classes, s: Seq<char>, w: Seq<char>, j: int)
    requires
        valid_classes(cl),
        0 <= j < s.len(),
    ensures
        repeat_end(cl, s, w, j) == j <==> !(ws_end(cl, s, j) > j && ws_end(cl, s, j) < s.len() && is_word_char(cl, 
            s[ws_end(cl, s, j)],
        ) && same_word(cl, s.subrange(ws_end(cl, s, j), word_end(cl, s, ws_end(cl, s, j))), w)),
{
    let g = ws_end(cl, s, j);
    lemma_ws_end_props(cl, s, j);
    if g > j && g < s.len() && is_word_char(cl, s[g]) && same_word(cl, 
        s.subrange(g, word_end(cl, s, g)),
        w,
    ) {
        lemma_word_end_props(cl, s, g);
        lemma_repeat_end_bounds(cl, s, w, word_end(cl, s, g));
    }
}

// ---------------------------------------------------------------------
// Scans only look rightwards
// ---------------------------------------------------------------------

proof fn lemma_shift_word_end(cl: Classes, a: Seq<char>, b: Seq<char>, k: int)
    requires
        valid_classes(cl),
        0 <= k <= b.len(),
    ensures
        word_end(cl, a + b, a.len() + k) == a.len() + word_end(cl, b, k),
    decreases b.len() - k,
{
    if k < b.len() {
        assert((a + b)[a.len() + k] == b[k]);
        if is_word_char(cl, b[k]) {
            lemma_shift_word_end(cl, a, b, k + 1);
        }
    }
}

proof fn lemma_shift_ws_end(cl: Classes, a: Seq<char>, b: Seq<char>, k: int)
    requires
        valid_classes(cl),
        0 <= k <= b.len(),
    ensures
        ws_end(cl, a + b, a.len() + k) == a.len() + ws_end(cl, b, k),
    decreases b.len() - k,
{
    if k < b.len() {
        assert((a + b)[a.len() + k] == b[k]);
        if is_space(cl, b[k]) {
            lemma_shift_ws_end(cl, a, b, k + 1);
        }
    }
}

proof fn lemma_shift_repeat_end(cl: Classes, a: Seq<char>, b: Seq<char>, w: Seq<char>, k: int)
    requires
        valid_classes(cl),
        0 <= k <= b.len(),
    ensures
        repeat_end(cl, a + b, w, a.len() + k) == a.len() + repeat_end(cl, b, w, k),
    decreases b.len() - k,
{
    if k < b.len() {
        let g = ws_end(cl, b, k);
        lemma_ws_end_props(cl, b, k);
        lemma_shift_ws_end(cl, a, b, k);
        if g < b.len() {
            assert((a + b)[a.len() + g] == b[g]);
            lemma_word_end_props(cl, b, g);
            lemma_shift_word_end(cl, a, b, g);
            let e = word_end(cl, b, g);
            assert((a + b).subrange(a.len() + g, a.len() + e) =~= b.subrange(g, e));
            if g > k && is_word_char(cl, b[g]) && same_word(cl, b.subrange(g, e), w) {
                lemma_shift_repeat_end(cl, a, b, w, e);
            }
        }
    }
}

proof fn lemma_shift_no_fillers(cl: Classes, a: Seq<char>, b: Seq<char>, k: int)
    requires
        valid_classes(cl),
        0 <= k <= b.len(),
    ensures
        no_fillers_from(cl, a + b, a.len() + k) == no_fillers_from(cl, b, k),
    decreases b.len() - k,
{
    if k < b.len() {
        assert((a + b)[a.len() + k] == b[k]);
        if !is_word_char(cl, b[k]) {
            lemma_shift_no_fillers(cl, a, b, k + 1);
        } else {
            lemma_word_end_props(cl, b, k);
            lemma_shift_word_end(cl, a, b, k);
            let e = word_end(cl, b, k);
            assert((a + b).subrange(a.len() + k, a.len() + e) =~= b.subrange(k, e));
            lemma_shift_no_fillers(cl, a, b, e);
        }
    }
}

proof fn lemma_shift_no_repeats(cl: Classes, a: Seq<char>, b: Seq<char>, k: int)
    requires
        valid_classes(cl),
        0 <= k <= b.len(),
    ensures
        no_repeats_from(cl, a + b, a.len() + k) == no_repeats_from(cl, b, k),
    decreases b.len() - k,
{
    if k < b.len() {
        assert((a + b)[a.len() + k] == b[k]);
        if !is_word_char(cl, b[k]) {
            lemma_shift_no_repeats(cl, a, b, k + 1);
        } else {
            lemma_word_end_props(cl, b, k);
            lemma_shift_word_end(cl, a, b, k);
            let e = word_end(cl, b, k);
            assert((a + b).subrange(a.len() + k, a.len() + e) =~= b.subrange(k, e));
            lemma_shift_repeat_end(cl, a, b, b.subrange(k, e), e);
            lemma_shift_no_repeats(cl, a, b, e);
        }
    }
}

// ---------------------------------------------------------------------
// Scans over a known prefix
// ---------------------------------------------------------------------

/// A word followed by a non-word character (or nothing) ends there.
proof fn lemma_word_then(cl: Classes, w: Seq<char>, y: Seq<char>, k: int)
    requires
        valid_classes(cl),
        0 <= k <= w.len(),
        forall|m: int| 0 <= m < w.len() ==> is_word_char(cl, #[trigger] w[m]),
        y.len() == 0 || !is_word_char(cl, y[0]),
    ensures
        word_end(cl, w + y, k) == w.len(),
    decreases w.len() - k,
{
    if k < w.len() {
        assert((w + y)[k] == w[k]);
        lemma_word_then(cl, w, y, k + 1);
    } else if y.len() > 0 {
        assert((w + y)[k] == y[0]);
    }
}

/// Whitespace followed by non-whitespace (or nothing) ends there.
proof fn lemma_ws_then(cl: Classes, g: Seq<char>, y: Seq<char>, k: int)
    requires
        valid_classes(cl),
        0 <= k <= g.len(),
        forall|m: int| 0 <= m < g.len() ==> is_space(cl, #[trigger] g[m]),
        y.len() == 0 || !is_space(cl, y[0]),
    ensures
        ws_end(cl, g + y, k) == g.len(),
    decreases g.len() - k,
{
    if k < g.len() {
        assert((g + y)[k] == g[k]);
        lemma_ws_then(cl, g, y, k + 1);
    } else if y.len() > 0 {
        assert((g + y)[k] == y[0]);
    }
}

proof fn lemma_skip_nonword(cl: Classes, g: Seq<char>, y: Seq<char>, k: int)
    requires
        valid_classes(cl),
        0 <= k <= g.len(),
        forall|m: int| 0 <= m < g.len() ==> !is_word_char(cl, #[trigger] g[m]),
    ensures
        no_fillers_from(cl, g + y, k) == no_fillers_from(cl, y, 0),
        no_repeats_from(cl, g + y, k) == no_repeats_from(cl, y, 0),
    decreases g.len() - k,
{
    if k < g.len() {
        assert((g + y)[k] == g[k]);
        lemma_skip_nonword(cl, g, y, k + 1);
    } else {
        lemma_shift_no_fillers(cl, g, y, 0);
        lemma_shift_no_repeats(cl, g, y, 0);
    }
}

proof fn lemma_skip_nonword_in_place(cl: Classes, s: Seq<char>, j: int, g: int)
    requires
        valid_classes(cl),
        0 <= j <= g <= s.len(),
        forall|m: int| j <= m < g ==> !is_word_char(cl, #[trigger] s[m]),
    ensures
        no_fillers_from(cl, s, j) == no_fillers_from(cl, s, g),
        no_repeats_from(cl, s, j) == no_repeats_from(cl, s, g),
    decreases g - j,
{
    if j < g {
        lemma_skip_nonword_in_place(cl, s, j + 1, g);
    }
}

/// A word, and what follows it, seen from its start.
proof fn lemma_word_unfold(cl: Classes, w: Seq<char>, y: Seq<char>)
    requires
        valid_classes(cl),
        w.len() > 0,
        forall|m: int| 0 <= m < w.len() ==> is_word_char(cl, #[trigger] w[m]),
        y.len() == 0 || !is_word_char(cl, y[0]),
    ensures
        no_fillers_from(cl, w + y, 0) == (!is_filler(w) && no_fillers_from(cl, y, 0)),
        no_repeats_from(cl, w + y, 0) == (repeat_end(cl, y, w, 0) == 0 && no_repeats_from(cl, y, 0)),
{
    assert((w + y)[0] == w[0]);
    lemma_word_then(cl, w, y, 0);
    assert((w + y).subrange(0, w.len() as int) =~= w);
    lemma_shift_no_fillers(cl, w, y, 0);
    lemma_shift_no_repeats(cl, w, y, 0);
    lemma_shift_repeat_end(cl, w, y, w, 0);
}

// ---------------------------------------------------------------------
// First characters of the passes
// ---------------------------------------------------------------------

proof fn lemma_strip_first(cl: Classes, s: Seq<char>, i: int)
    requires
        valid_classes(cl),
        0 <= i < s.len(),
        !is_word_char(cl, s[i]),
    ensures
        strip_from(cl, s, i) == seq![s[i]] + strip_from(cl, s, i + 1),
{
}

proof fn lemma_collapse_first(cl: Classes, s: Seq<char>, i: int)
    requires
        valid_classes(cl),
        0 <= i <= s.len(),
    ensures
        i == s.len() ==> collapse_from(cl, s, i).len() == 0,
        i < s.len() ==> collapse_from(cl, s, i).len() > 0 && collapse_from(cl, s, i)[0] == s[i],
{
    if i < s.len() && is_word_char(cl, s[i]) {
        lemma_word_end_props(cl, s, i);
        let j = word_end(cl, s, i);
        lemma_repeat_end_bounds(cl, s, s.subrange(i, j), j);
    }
}

proof fn lemma_spaces_first(cl: Classes, s: Seq<char>, i: int)
    requires
        valid_classes(cl),
        0 <= i <= s.len(),
    ensures
        i == s.len() ==> spaces_from(s, i).len() == 0,
        i < s.len() ==> spaces_from(s, i).len() > 0 && spaces_from(s, i)[0] == s[i],
    decreases s.len() - i,
{
    if i < s.len() {
        lemma_spaces_first(cl, s, i + 1);
    }
}

/// Non-word characters pass the repetition pass one by one.
proof fn lemma_collapse_nonword(cl: Classes, s: Seq<char>, k: int, g: int)
    requires
        valid_classes(cl),
        0 <= k <= g <= s.len(),
        forall|m: int| k <= m < g ==> !is_word_char(cl, #[trigger] s[m]),
    ensures
        collapse_from(cl, s, k) == s.subrange(k, g) + collapse_from(cl, s, g),
    decreases g - k,
{
    if k < g {
        lemma_collapse_nonword(cl, s, k + 1, g);
        assert(s.subrange(k, g) =~= seq![s[k]] + s.subrange(k + 1, g));
        assert(collapse_from(cl, s, k) =~= s.subrange(k, g) + collapse_from(cl, s, g));
    } else {
        assert(s.subrange(k, g) =~= Seq::<char>::empty());
        assert(collapse_from(cl, s, k) =~= s.subrange(k, g) + collapse_from(cl, s, g));
    }
}

/// Characters other than the space pass the space pass one by one.
proof fn lemma_spaces_keep(cl: Classes, s: Seq<char>, i: int, j: int)
    requires
        valid_classes(cl),
        0 <= i <= j <= s.len(),
        forall|m: int| i <= m < j ==> #[trigger] s[m] != ' ',
    ensures
        spaces_from(s, i) == s.subrange(i, j) + spaces_from(s, j),
    decreases j - i,
{
    if i < j {
        lemma_spaces_keep(cl, s, i + 1, j);
        assert(s.subrange(i, j) =~= seq![s[i]] + s.subrange(i + 1, j));
        assert(spaces_from(s, i) =~= s.subrange(i, j) + spaces_from(s, j));
    } else {
        assert(s.subrange(i, j) =~= Seq::<char>::empty());
        assert(spaces_from(s, i) =~= s.subrange(i, j) + spaces_from(s, j));
    }
}

/// A whitespace run comes out of the space pass as a whitespace run,
/// empty exactly when it was.
proof fn lemma_spaces_ws_run(cl: Classes, s: Seq<char>, j: int, g: int) -> (gp: Seq<char>)
    requires
        valid_classes(cl),
        0 <= j <= g <= s.len(),
        forall|m: int| j <= m < g ==> is_space(cl, #[trigger] s[m]),
        g == s.len() || s[g] != ' ',
    ensures
        spaces_from(s, j) == gp + spaces_from(s, g),
        forall|m: int| 0 <= m < gp.len() ==> is_space(cl, #[trigger] gp[m]),
        gp.len() > 0 <==> g > j,
    decreases g - j,
{
    if j == g {
        assert(spaces_from(s, j) =~= Seq::<char>::empty() + spaces_from(s, g));
        Seq::empty()
    } else if s[j] == ' ' && j + 1 < s.len() && s[j + 1] == ' ' {
        let gp = lemma_spaces_ws_run(cl, s, j + 1, g);
        gp
    } else {
        let gp0 = lemma_spaces_ws_run(cl, s, j + 1, g);
        let gp = seq![s[j]] + gp0;
        assert forall|m: int| 0 <= m < gp.len() implies is_space(cl, #[trigger] gp[m]) by {
            if m > 0 {
                assert(gp[m] == gp0[m - 1]);
            }
        }
        assert(spaces_from(s, j) =~= gp + spaces_from(s, g));
        gp
    }
}

// ---------------------------------------------------------------------
// Pass 1
// ---------------------------------------------------------------------

proof fn lemma_strip_no_fillers(cl: Classes, s: Seq<char>, i: int)
    requires
        valid_classes(cl),
        0 <= i <= s.len(),
    ensures
        no_fillers_from(cl, strip_from(cl, s, i), 0),
    decreases s.len() - i,
{
    if i < s.len() {
        if !is_word_char(cl, s[i]) {
            lemma_strip_no_fillers(cl, s, i + 1);
            lemma_skip_nonword(cl, seq![s[i]], strip_from(cl, s, i + 1), 0);
        } else {
            lemma_word_end_props(cl, s, i);
            let j = word_end(cl, s, i);
            lemma_strip_no_fillers(cl, s, j);
            let w = s.subrange(i, j);
            let rest = strip_from(cl, s, j);
            if is_filler(w) {
                assert(strip_from(cl, s, i) =~= rest);
            } else {
                assert(strip_from(cl, s, i) =~= w + rest);
                if j < s.len() {
                    lemma_strip_first(cl, s, j);
                }
                lemma_word_unfold(cl, w, rest);
            }
        }
    }
}

proof fn lemma_strip_unchanged(cl: Classes, s: Seq<char>, i: int)
    requires
        valid_classes(cl),
        0 <= i <= s.len(),
        no_fillers_from(cl, s, i),
    ensures
        strip_from(cl, s, i) == s.subrange(i, s.len() as int),
    decreases s.len() - i,
{
    if i < s.len() {
        if !is_word_char(cl, s[i]) {
            lemma_strip_unchanged(cl, s, i + 1);
            assert(strip_from(cl, s, i) =~= s.subrange(i, s.len() as int));
        } else {
            lemma_word_end_props(cl, s, i);
            let j = word_end(cl, s, i);
            lemma_strip_unchanged(cl, s, j);
            assert(strip_from(cl, s, i) =~= s.subrange(i, s.len() as int));
        }
    } else {
        assert(strip_from(cl, s, i) =~= s.subrange(i, s.len() as int));
    }
}

// ---------------------------------------------------------------------
// Pass 2
// ---------------------------------------------------------------------

proof fn lemma_repeat_end_no_fillers(cl: Classes, s: Seq<char>, w: Seq<char>, j: int)
    requires
        valid_classes(cl),
        0 <= j <= s.len(),
        no_fillers_from(cl, s, j),
    ensures
        no_fillers_from(cl, s, repeat_end(cl, s, w, j)),
    decreases s.len() - j,
{
    if j < s.len() {
        let g = ws_end(cl, s, j);
        lemma_ws_end_props(cl, s, j);
        if g > j && g < s.len() && is_word_char(cl, s[g]) && same_word(cl, 
            s.subrange(g, word_end(cl, s, g)),
            w,
        ) {
            lemma_skip_nonword_in_place(cl, s, j, g);
            lemma_word_end_props(cl, s, g);
            lemma_repeat_end_no_fillers(cl, s, w, word_end(cl, s, g));
        }
    }
}

proof fn lemma_collapse_no_fillers(cl: Classes, s: Seq<char>, i: int)
    requires
        valid_classes(cl),
        0 <= i <= s.len(),
        no_fillers_from(cl, s, i),
    ensures
        no_fillers_from(cl, collapse_from(cl, s, i), 0),
    decreases s.len() - i,
{
    if i < s.len() {
        if !is_word_char(cl, s[i]) {
            lemma_collapse_no_fillers(cl, s, i + 1);
            lemma_skip_nonword(cl, seq![s[i]], collapse_from(cl, s, i + 1), 0);
        } else {
            lemma_word_end_props(cl, s, i);
            let j = word_end(cl, s, i);
            let w = s.subrange(i, j);
            let k = repeat_end(cl, s, w, j);
            lemma_repeat_end_bounds(cl, s, w, j);
            lemma_repeat_end_no_fillers(cl, s, w, j);
            lemma_repeat_end_stop(cl, s, w, j);
            lemma_collapse_no_fillers(cl, s, k);
            lemma_collapse_first(cl, s, k);
            lemma_word_unfold(cl, w, collapse_from(cl, s, k));
        }
    }
}

proof fn lemma_collapse_no_repeats(cl: Classes, s: Seq<char>, i: int)
    requires
        valid_classes(cl),
        0 <= i <= s.len(),
    ensures
        no_repeats_from(cl, collapse_from(cl, s, i), 0),
    decreases s.len() - i,
{
    if i < s.len() {
        if !is_word_char(cl, s[i]) {
            lemma_collapse_no_repeats(cl, s, i + 1);
            lemma_skip_nonword(cl, seq![s[i]], collapse_from(cl, s, i + 1), 0);
        } else {
            lemma_word_end_props(cl, s, i);
            let j = word_end(cl, s, i);
            let w = s.subrange(i, j);
            let k = repeat_end(cl, s, w, j);
            lemma_repeat_end_bounds(cl, s, w, j);
            lemma_repeat_end_stop(cl, s, w, j);
            lemma_collapse_no_repeats(cl, s, k);
            lemma_collapse_first(cl, s, k);
            let rest = collapse_from(cl, s, k);
            lemma_word_unfold(cl, w, rest);
            lemma_collapse_rest_no_repeat(cl, s, w, j);
        }
    }
}

/// After a repetition run of `w` has been dropped, what follows does not
/// start with `w` again.
proof fn lemma_collapse_rest_no_repeat(cl: Classes, s: Seq<char>, w: Seq<char>, j: int)
    requires
        valid_classes(cl),
        0 <= j <= s.len(),
        j == s.len() || !is_word_char(cl, s[j]),
    ensures
        repeat_end(cl, collapse_from(cl, s, repeat_end(cl, s, w, j)), w, 0) == 0,
{
    let k = repeat_end(cl, s, w, j);
    lemma_repeat_end_bounds(cl, s, w, j);
    lemma_repeat_end_stop(cl, s, w, j);
    lemma_repeat_end_maximal(cl, s, w, j);
    let rest = collapse_from(cl, s, k);
    if k < s.len() {
        lemma_repeat_end_fixed(cl, s, w, k);
        let g = ws_end(cl, s, k);
        lemma_ws_end_props(cl, s, k);
        lemma_collapse_nonword(cl, s, k, g);
        let gap = s.subrange(k, g);
        let r2 = collapse_from(cl, s, g);
        lemma_collapse_first(cl, s, g);
        assert forall|m: int| 0 <= m < gap.len() implies is_space(cl, #[trigger] gap[m]) by {
            assert(gap[m] == s[k + m]);
        }
        lemma_ws_then(cl, gap, r2, 0);
        assert(rest == gap + r2);
        assert(ws_end(cl, rest, 0) == g - k);
        if g < s.len() {
            assert(rest[g - k] == s[g]);
            if is_word_char(cl, s[g]) {
                lemma_word_end_props(cl, s, g);
                let e = word_end(cl, s, g);
                let w2 = s.subrange(g, e);
                let r3 = collapse_from(cl, s, repeat_end(cl, s, w2, e));
                lemma_repeat_end_bounds(cl, s, w2, e);
                lemma_repeat_end_stop(cl, s, w2, e);
                lemma_collapse_first(cl, s, repeat_end(cl, s, w2, e));
                assert(r2 == w2 + r3);
                lemma_word_then(cl, w2, r3, 0);
                assert(rest =~= gap + (w2 + r3));
                lemma_shift_word_end(cl, gap, w2 + r3, 0);
                assert(word_end(cl, rest, g - k) == e - k);
                assert(rest.subrange(g - k, e - k) =~= w2);
            }
        }
    }
}

proof fn lemma_collapse_unchanged(cl: Classes, s: Seq<char>, i: int)
    requires
        valid_classes(cl),
        0 <= i <= s.len(),
        no_repeats_from(cl, s, i),
    ensures
        collapse_from(cl, s, i) == s.subrange(i, s.len() as int),
    decreases s.len() - i,
{
    if i < s.len() {
        if !is_word_char(cl, s[i]) {
            lemma_collapse_unchanged(cl, s, i + 1);
            assert(collapse_from(cl, s, i) =~= s.subrange(i, s.len() as int));
        } else {
            lemma_word_end_props(cl, s, i);
            let j = word_end(cl, s, i);
            lemma_collapse_unchanged(cl, s, j);
            assert(collapse_from(cl, s, i) =~= s.subrange(i, s.len() as int));
        }
    } else {
        assert(collapse_from(cl, s, i) =~= s.subrange(i, s.len() as int));
    }
}

// ---------------------------------------------------------------------
// Pass 3
// ---------------------------------------------------------------------

proof fn lemma_word_not_space(cl: Classes, s: Seq<char>, i: int)
    requires
        valid_classes(cl),
        0 <= i <= s.len(),
    ensures
        forall|m: int| i <= m < word_end(cl, s, i) ==> #[trigger] s[m] != ' ',
{
    lemma_word_end_props(cl, s, i);
    assert forall|m: int| i <= m < word_end(cl, s, i) implies #[trigger] s[m] != ' ' by {
        assert(is_word_char(cl, s[m]));
    }
}

proof fn lemma_spaces_no_fillers_repeats(cl: Classes, s: Seq<char>, i: int)
    requires
        valid_classes(cl),
        0 <= i <= s.len(),
    ensures
        no_fillers_from(cl, s, i) ==> no_fillers_from(cl, spaces_from(s, i), 0),
        no_repeats_from(cl, s, i) ==> no_repeats_from(cl, spaces_from(s, i), 0),
    decreases s.len() - i,
{
    if i < s.len() {
        if !is_word_char(cl, s[i]) {
            lemma_spaces_no_fillers_repeats(cl, s, i + 1);
            if !(s[i] == ' ' && i + 1 < s.len() && s[i + 1] == ' ') {
                lemma_skip_nonword(cl, seq![s[i]], spaces_from(s, i + 1), 0);
            }
        } else {
            lemma_word_end_props(cl, s, i);
            let j = word_end(cl, s, i);
            let w = s.subrange(i, j);
            lemma_word_not_space(cl, s, i);
            lemma_spaces_keep(cl, s, i, j);
            lemma_spaces_no_fillers_repeats(cl, s, j);
            let r = spaces_from(s, j);
            lemma_spaces_first(cl, s, j);
            lemma_word_unfold(cl, w, r);
            if no_repeats_from(cl, s, i) {
                lemma_spaces_rest_no_repeat(cl, s, w, j);
            }
        }
    }
}

/// When no repetition of `w` follows at `j`, none follows after the
/// space pass either.
proof fn lemma_spaces_rest_no_repeat(cl: Classes, s: Seq<char>, w: Seq<char>, j: int)
    requires
        valid_classes(cl),
        0 <= j <= s.len(),
        repeat_end(cl, s, w, j) == j,
    ensures
        repeat_end(cl, spaces_from(s, j), w, 0) == 0,
{
    let r = spaces_from(s, j);
    if j < s.len() {
        lemma_repeat_end_fixed(cl, s, w, j);
        let g = ws_end(cl, s, j);
        lemma_ws_end_props(cl, s, j);
        let gp = lemma_spaces_ws_run(cl, s, j, g);
        let r2 = spaces_from(s, g);
        lemma_spaces_first(cl, s, g);
        lemma_ws_then(cl, gp, r2, 0);
        assert(ws_end(cl, r, 0) == gp.len());
        if g < s.len() {
            assert(r[gp.len() as int] == s[g]);
            if is_word_char(cl, s[g]) {
                lemma_word_end_props(cl, s, g);
                let e = word_end(cl, s, g);
                let w2 = s.subrange(g, e);
                lemma_word_not_space(cl, s, g);
                lemma_spaces_keep(cl, s, g, e);
                let r3 = spaces_from(s, e);
                lemma_spaces_first(cl, s, e);
                lemma_word_then(cl, w2, r3, 0);
                assert(r =~= gp + (w2 + r3));
                lemma_shift_word_end(cl, gp, w2 + r3, 0);
                assert(word_end(cl, r, gp.len() as int) == gp.len() + (e - g));
                assert(r.subrange(gp.len() as int, gp.len() + (e - g)) =~= w2);
            }
        }
    }
}

proof fn lemma_spaces_no_double(cl: Classes, s: Seq<char>, i: int)
    requires
        valid_classes(cl),
        0 <= i <= s.len(),
    ensures
        no_double_space(spaces_from(s, i)),
    decreases s.len() - i,
{
    if i < s.len() {
        lemma_spaces_no_double(cl, s, i + 1);
        if !(s[i] == ' ' && i + 1 < s.len() && s[i + 1] == ' ') {
            let rest = spaces_from(s, i + 1);
            lemma_spaces_first(cl, s, i + 1);
            let out = spaces_from(s, i);
            assert(out == seq![s[i]] + rest);
            assert forall|k: int| 0 <= k && k + 1 < out.len() implies !(#[trigger] out[k] == ' '
                && out[k + 1] == ' ') by {
                if k > 0 {
                    assert(out[k] == rest[k - 1]);
                    assert(out[k + 1] == rest[k]);
                } else {
                    assert(out[1] == rest[0]);
                }
            }
        }
    }
}

proof fn lemma_spaces_unchanged(cl: Classes, s: Seq<char>, i: int)
    requires
        valid_classes(cl),
        0 <= i <= s.len(),
        no_double_space(s),
    ensures
        spaces_from(s, i) == s.subrange(i, s.len() as int),
    decreases s.len() - i,
{
    if i < s.len() {
        lemma_spaces_unchanged(cl, s, i + 1);
        if i + 1 < s.len() {
            assert(!(s[i] == ' ' && s[i + 1] == ' '));
        }
        assert(spaces_from(s, i) =~= s.subrange(i, s.len() as int));
    } else {
        assert(spaces_from(s, i) =~= s.subrange(i, s.len() as int));
    }
}

// ---------------------------------------------------------------------
// Pass 4
// ---------------------------------------------------------------------

/// A word inside `x` ends at the same place when non-word text follows `x`.
proof fn lemma_word_end_prefix(cl: Classes, x: Seq<char>, y: Seq<char>, k: int)
    requires
        valid_classes(cl),
        0 <= k <= x.len(),
        y.len() == 0 || !is_word_char(cl, y[0]),
    ensures
        word_end(cl, x + y, k) == word_end(cl, x, k),
    decreases x.len() - k,
{
    if k < x.len() {
        assert((x + y)[k] == x[k]);
        if is_word_char(cl, x[k]) {
            lemma_word_end_prefix(cl, x, y, k + 1);
        }
    } else if y.len() > 0 {
        assert((x + y)[k] == y[0]);
    }
}

/// A whitespace run inside `x` ends at the same place when `x` ends in
/// non-whitespace.
proof fn lemma_ws_end_prefix(cl: Classes, x: Seq<char>, y: Seq<char>, k: int)
    requires
        valid_classes(cl),
        0 <= k < x.len(),
        !is_space(cl, x[x.len() - 1]),
    ensures
        ws_end(cl, x + y, k) == ws_end(cl, x, k),
        ws_end(cl, x, k) < x.len(),
    decreases x.len() - k,
{
    assert((x + y)[k] == x[k]);
    if is_space(cl, x[k]) {
        lemma_ws_end_prefix(cl, x, y, k + 1);
    }
}

/// Trailing whitespace changes none of the scans over `x`.
proof fn lemma_trailing_ws(cl: Classes, x: Seq<char>, t: Seq<char>, k: int)
    requires
        valid_classes(cl),
        0 <= k <= x.len(),
        x.len() > 0,
        !is_space(cl, x[x.len() - 1]),
        forall|m: int| 0 <= m < t.len() ==> is_space(cl, #[trigger] t[m]),
    ensures
        no_fillers_from(cl, x + t, k) == no_fillers_from(cl, x, k),
        no_repeats_from(cl, x + t, k) == no_repeats_from(cl, x, k),
    decreases x.len() - k,
{
    assert forall|m: int| 0 <= m < t.len() implies !is_word_char(cl, #[trigger] t[m]) by {
        assert(is_space(cl, t[m]));
    }
    if k < x.len() {
        assert((x + t)[k] == x[k]);
        if !is_word_char(cl, x[k]) {
            lemma_trailing_ws(cl, x, t, k + 1);
        } else {
            lemma_word_end_prefix(cl, x, t, k);
            lemma_word_end_props(cl, x, k);
            let j = word_end(cl, x, k);
            assert((x + t).subrange(k, j) =~= x.subrange(k, j));
            lemma_trailing_ws(cl, x, t, j);
            lemma_repeat_end_trailing_ws(cl, x, t, x.subrange(k, j), j);
        }
    } else {
        assert(x + t =~= x + (t + Seq::<char>::empty()));
        lemma_skip_nonword(cl, t, Seq::<char>::empty(), 0);
        lemma_shift_no_fillers(cl, x, t, 0);
        lemma_shift_no_repeats(cl, x, t, 0);
    }
}

proof fn lemma_repeat_end_trailing_ws(cl: Classes, x: Seq<char>, t: Seq<char>, w: Seq<char>, j: int)
    requires
        valid_classes(cl),
        0 <= j <= x.len(),
        x.len() > 0,
        !is_space(cl, x[x.len() - 1]),
        forall|m: int| 0 <= m < t.len() ==> is_space(cl, #[trigger] t[m]),
        forall|m: int| 0 <= m < t.len() ==> !is_word_char(cl, #[trigger] t[m]),
    ensures
        repeat_end(cl, x + t, w, j) == repeat_end(cl, x, w, j),
    decreases x.len() - j,
{
    if j < x.len() {
        lemma_ws_end_prefix(cl, x, t, j);
        lemma_ws_end_props(cl, x, j);
        let g = ws_end(cl, x, j);
        assert((x + t)[g] == x[g]);
        lemma_word_end_prefix(cl, x, t, g);
        lemma_word_end_props(cl, x, g);
        let e = word_end(cl, x, g);
        assert((x + t).subrange(g, e) =~= x.subrange(g, e));
        if g > j && is_word_char(cl, x[g]) && same_word(cl, x.subrange(g, e), w) {
            lemma_repeat_end_trailing_ws(cl, x, t, w, e);
        }
    } else if t.len() > 0 {
        lemma_shift_ws_end(cl, x, t, 0);
        lemma_ws_then(cl, t, Seq::<char>::empty(), 0);
        assert(t + Seq::<char>::empty() =~= t);
    }
}

proof fn lemma_trim_props(cl: Classes, v: Seq<char>)
    requires
        valid_classes(cl),
    ensures
        is_trimmed(cl, trim(cl, v)),
        no_double_space(v) ==> no_double_space(trim(cl, v)),
        no_fillers_from(cl, v, 0) ==> no_fillers_from(cl, trim(cl, v), 0),
        no_repeats_from(cl, v, 0) ==> no_repeats_from(cl, trim(cl, v), 0),
{
    let a = ws_end(cl, v, 0);
    let b = ws_start_back(cl, v, v.len() as int);
    lemma_ws_end_props(cl, v, 0);
    lemma_ws_start_back_props(cl, v, v.len() as int);
    if a < b {
        let x = v.subrange(a, b);
        let t = v.subrange(b, v.len() as int);
        let pre = v.subrange(0, a);
        assert(v =~= pre + (x + t));
        assert forall|m: int| 0 <= m < pre.len() implies !is_word_char(cl, #[trigger] pre[m]) by {
            assert(is_space(cl, v[m]));
        }
        lemma_skip_nonword(cl, pre, x + t, 0);
        assert forall|m: int| 0 <= m < t.len() implies is_space(cl, #[trigger] t[m]) by {
            assert(t[m] == v[b + m]);
        }
        lemma_trailing_ws(cl, x, t, 0);
        if no_double_space(v) {
            assert forall|k: int| 0 <= k && k + 1 < x.len() implies !(#[trigger] x[k] == ' ' && x[k
                + 1] == ' ') by {
                assert(x[k] == v[a + k]);
                assert(x[k + 1] == v[a + k + 1]);
            }
        }
    }
}

proof fn lemma_trim_unchanged(cl: Classes, s: Seq<char>)
    requires
        valid_classes(cl),
        is_trimmed(cl, s),
    ensures
        trim(cl, s) == s,
{
    if s.len() > 0 {
        assert(ws_end(cl, s, 0) == 0);
        assert(ws_start_back(cl, s, s.len() as int) == s.len());
        assert(s.subrange(0, s.len() as int) =~= s);
    }
}

// ---------------------------------------------------------------------
// The laws
// ---------------------------------------------------------------------

/// Cleaning yields a clean transcript: no whitespace at either end, no
/// two spaces in a row, no filler word, and no word followed across
/// whitespace by the same word.
pub proof fn lemma_cleaned_is_clean(cl: Classes, text: Seq<char>)
    requires
        valid_classes(cl),
    ensures
        is_clean(cl, cleaned(cl, text)),
{
    let s1 = strip_fillers(cl, text);
    lemma_strip_no_fillers(cl, text, 0);
    let s2 = collapse_repeats(cl, s1);
    lemma_collapse_no_fillers(cl, s1, 0);
    lemma_collapse_no_repeats(cl, s1, 0);
    let s3 = collapse_spaces(s2);
    lemma_spaces_no_fillers_repeats(cl, s2, 0);
    lemma_spaces_no_double(cl, s2, 0);
    lemma_trim_props(cl, s3);
}

/// A transcript that is already clean is left exactly as it is.
pub proof fn lemma_clean_text_unchanged(cl: Classes, s: Seq<char>)
    requires
        valid_classes(cl),
        is_clean(cl, s),
    ensures
        cleaned(cl, s) == s,
{
    lemma_strip_unchanged(cl, s, 0);
    assert(s.subrange(0, s.len() as int) =~= s);
    lemma_collapse_unchanged(cl, s, 0);
    lemma_spaces_unchanged(cl, s, 0);
    lemma_trim_unchanged(cl, s);
}

/// Cleaning twice is cleaning once.
pub proof fn lemma_cleaning_idempotent(cl: Classes, text: Seq<char>)
    requires
        valid_classes(cl),
    ensures
        cleaned(cl, cleaned(cl, text)) == cleaned(cl, text),
{
    lemma_cleaned_is_clean(cl, text);
    lemma_clean_text_unchanged(cl, cleaned(cl, text));
}

// ---------------------------------------------------------------------
// Length
// ---------------------------------------------------------------------

proof fn lemma_passes_no_longer(cl: Classes, s: Seq<char>, i: int)
    requires
        0 <= i <= s.len(),
    ensures
        strip_from(cl, s, i).len() <= s.len() - i,
        collapse_from(cl, s, i).len() <= s.len() - i,
        spaces_from(s, i).len() <= s.len() - i,
    decreases s.len() - i,
{
    if i < s.len() {
        lemma_spaces_len(s, i);
        if !is_word_char(cl, s[i]) {
            lemma_passes_no_longer(cl, s, i + 1);
        } else {
            lemma_word_end_bounds(cl, s, i);
            let j = word_end(cl, s, i);
            lemma_passes_no_longer(cl, s, j);
            let k = repeat_end(cl, s, s.subrange(i, j), j);
            lemma_repeat_end_bounds(cl, s, s.subrange(i, j), j);
            lemma_passes_no_longer(cl, s, k);
        }
    }
}

proof fn lemma_spaces_len(s: Seq<char>, i: int)
    requires
        0 <= i <= s.len(),
    ensures
        spaces_from(s, i).len() <= s.len() - i,
    decreases s.len() - i,
{
    if i < s.len() {
        lemma_spaces_len(s, i + 1);
    }
}

/// Cleaning never lengthens a transcript.
pub proof fn lemma_cleaned_no_longer(cl: Classes, text: Seq<char>)
    ensures
        cleaned(cl, text).len() <= text.len(),
{
    lemma_passes_no_longer(cl, text, 0);
    let s1 = strip_fillers(cl, text);
    lemma_passes_no_longer(cl, s1, 0);
    let s2 = collapse_repeats(cl, s1);
    lemma_passes_no_longer(cl, s2, 0);
    let s3 = collapse_spaces(s2);
    lemma_ws_end_bounds(cl, s3, 0);
    lemma_ws_start_back_bounds(cl, s3, s3.len() as int);
}

// ---------------------------------------------------------------------
// Word by word
// ---------------------------------------------------------------------

proof fn lemma_shift_strip(cl: Classes, a: Seq<char>, b: Seq<char>, k: int)
    requires
        valid_classes(cl),
        0 <= k <= b.len(),
    ensures
        strip_from(cl, a + b, a.len() + k) == strip_from(cl, b, k),
    decreases b.len() - k,
{
    if k < b.len() {
        assert((a + b)[a.len() + k] == b[k]);
        if !is_word_char(cl, b[k]) {
            lemma_shift_strip(cl, a, b, k + 1);
        } else {
            lemma_word_end_props(cl, b, k);
            lemma_shift_word_end(cl, a, b, k);
            let e = word_end(cl, b, k);
            assert((a + b).subrange(a.len() + k, a.len() + e) =~= b.subrange(k, e));
            lemma_shift_strip(cl, a, b, e);
        }
    }
}

proof fn lemma_shift_collapse(cl: Classes, a: Seq<char>, b: Seq<char>, k: int)
    requires
        valid_classes(cl),
        0 <= k <= b.len(),
    ensures
        collapse_from(cl, a + b, a.len() + k) == collapse_from(cl, b, k),
    decreases b.len() - k,
{
    if k < b.len() {
        assert((a + b)[a.len() + k] == b[k]);
        if !is_word_char(cl, b[k]) {
            lemma_shift_collapse(cl, a, b, k + 1);
        } else {
            lemma_word_end_props(cl, b, k);
            lemma_shift_word_end(cl, a, b, k);
            let e = word_end(cl, b, k);
            let w = b.subrange(k, e);
            assert((a + b).subrange(a.len() + k, a.len() + e) =~= w);
            lemma_shift_repeat_end(cl, a, b, w, e);
            lemma_repeat_end_bounds(cl, b, w, e);
            lemma_shift_collapse(cl, a, b, repeat_end(cl, b, w, e));
        }
    }
}

/// Non-word characters pass the filler pass one by one.
proof fn lemma_strip_nonword(cl: Classes, s: Seq<char>, k: int, g: int)
    requires
        valid_classes(cl),
        0 <= k <= g <= s.len(),
        forall|m: int| k <= m < g ==> !is_word_char(cl, #[trigger] s[m]),
    ensures
        strip_from(cl, s, k) == s.subrange(k, g) + strip_from(cl, s, g),
    decreases g - k,
{
    if k < g {
        lemma_strip_nonword(cl, s, k + 1, g);
        assert(s.subrange(k, g) =~= seq![s[k]] + s.subrange(k + 1, g));
        assert(strip_from(cl, s, k) =~= s.subrange(k, g) + strip_from(cl, s, g));
    } else {
        assert(strip_from(cl, s, k) =~= s.subrange(k, g) + strip_from(cl, s, g));
    }
}

/// The filler pass at the start of a word followed by non-word text.
proof fn lemma_strip_word(cl: Classes, w: Seq<char>, t: Seq<char>)
    requires
        valid_classes(cl),
        w.len() > 0,
        forall|m: int| 0 <= m < w.len() ==> is_word_char(cl, #[trigger] w[m]),
        t.len() == 0 || !is_word_char(cl, t[0]),
    ensures
        strip_fillers(cl, w + t) == (if is_filler_word(w) {
            Seq::empty()
        } else {
            w
        }) + strip_fillers(cl, t),
{
    lemma_filler_test_matches_pattern(w);
    assert((w + t)[0] == w[0]);
    lemma_word_then(cl, w, t, 0);
    assert((w + t).subrange(0, w.len() as int) =~= w);
    lemma_shift_strip(cl, w, t, 0);
    if is_filler_word(w) {
        assert(strip_fillers(cl, w + t) =~= Seq::<char>::empty() + strip_fillers(cl, t));
    }
}

/// A filler word (`e+u+h+`, `h+e+u+h*`, `h+[um]+m+`, `m{2,}`, `bah`,
/// `ben`, `ah`, `oh`, in any ASCII case) at the start of a transcript is
/// dropped: cleaning gives what cleaning the rest gives.
pub proof fn lemma_filler_word_dropped(cl: Classes, w: Seq<char>, t: Seq<char>)
    requires
        valid_classes(cl),
        w.len() > 0,
        forall|m: int| 0 <= m < w.len() ==> is_word_char(cl, #[trigger] w[m]),
        is_filler_word(w),
        t.len() == 0 || !is_word_char(cl, t[0]),
    ensures
        strip_fillers(cl, w + t) == strip_fillers(cl, t),
        cleaned(cl, w + t) == cleaned(cl, t),
{
    lemma_strip_word(cl, w, t);
    assert(Seq::<char>::empty() + strip_fillers(cl, t) =~= strip_fillers(cl, t));
}

/// A word that is not a filler is kept whole by the filler pass.
pub proof fn lemma_other_word_kept(cl: Classes, w: Seq<char>, t: Seq<char>)
    requires
        valid_classes(cl),
        w.len() > 0,
        forall|m: int| 0 <= m < w.len() ==> is_word_char(cl, #[trigger] w[m]),
        !is_filler_word(w),
        t.len() == 0 || !is_word_char(cl, t[0]),
    ensures
        strip_fillers(cl, w + t) == w + strip_fillers(cl, t),
{
    lemma_strip_word(cl, w, t);
}

/// A word, character by character lowercased.
pub open spec fn lowered(cl: Classes, w: Seq<char>) -> Seq<Seq<char>> {
    w.map_values(|c: char| lower_of(cl, c))
}

/// Two words are the same for the cleaner exactly when their lowercased
/// forms are equal.
pub proof fn lemma_same_word_is_equal_lowercase(cl: Classes, a: Seq<char>, b: Seq<char>)
    ensures
        same_word(cl, a, b) == (lowered(cl, a) == lowered(cl, b)),
{
    if lowered(cl, a) == lowered(cl, b) {
        assert(a.len() == lowered(cl, a).len());
        assert forall|m: int| 0 <= m < a.len() implies lower_of(cl, #[trigger] a[m]) == lower_of(
            cl,
            b[m],
        ) by {
            assert(lowered(cl, a)[m] == lowered(cl, b)[m]);
        }
    }
    if same_word(cl, a, b) {
        assert(lowered(cl, a) =~= lowered(cl, b));
    }
}

/// The repetition pass on `w`, a whitespace gap `g`, a word `w2`, then
/// non-word text `t`.
proof fn lemma_collapse_pair(
    cl: Classes,
    w: Seq<char>,
    g: Seq<char>,
    w2: Seq<char>,
    t: Seq<char>,
)
    requires
        valid_classes(cl),
        w.len() > 0,
        forall|m: int| 0 <= m < w.len() ==> is_word_char(cl, #[trigger] w[m]),
        g.len() > 0,
        forall|m: int| 0 <= m < g.len() ==> is_space(cl, #[trigger] g[m]),
        w2.len() > 0,
        forall|m: int| 0 <= m < w2.len() ==> is_word_char(cl, #[trigger] w2[m]),
        t.len() == 0 || !is_word_char(cl, t[0]),
    ensures
        same_word(cl, w2, w) ==> collapse_repeats(cl, w + (g + (w2 + t))) == collapse_repeats(
            cl,
            w + t,
        ),
        !same_word(cl, w2, w) ==> collapse_repeats(cl, w + (g + (w2 + t))) == w + (g
            + collapse_repeats(cl, w2 + t)),
{
    let r = g + (w2 + t);
    let s1 = w + r;
    let s2 = w + t;
    assert(!is_word_char(cl, g[0]));
    assert(r[0] == g[0]);
    lemma_word_then(cl, w, r, 0);
    lemma_word_then(cl, w, t, 0);
    assert(s1[0] == w[0]);
    assert(s2[0] == w[0]);
    assert(s1.subrange(0, w.len() as int) =~= w);
    assert(s2.subrange(0, w.len() as int) =~= w);
    // what follows w in s1
    assert(!is_space(cl, w2[0]));
    assert((w2 + t)[0] == w2[0]);
    lemma_ws_then(cl, g, w2 + t, 0);
    lemma_word_then(cl, w2, t, 0);
    lemma_shift_word_end(cl, g, w2 + t, 0);
    assert(r[g.len() as int] == w2[0]);
    assert(r.subrange(g.len() as int, (g.len() + w2.len()) as int) =~= w2);
    lemma_shift_repeat_end(cl, w, r, w, 0);
    lemma_shift_repeat_end(cl, w, t, w, 0);
    let gw = g + w2;
    assert(r =~= gw + t);
    lemma_shift_repeat_end(cl, gw, t, w, 0);
    lemma_repeat_end_bounds(cl, t, w, 0);
    let kt = repeat_end(cl, t, w, 0);
    if same_word(cl, w2, w) {
        assert(repeat_end(cl, r, w, 0) == repeat_end(cl, r, w, (g.len() + w2.len()) as int));
        assert(repeat_end(cl, r, w, 0) == gw.len() + kt);
        let a1 = w + gw;
        assert(s1 =~= a1 + t);
        lemma_shift_collapse(cl, a1, t, kt);
        lemma_shift_collapse(cl, w, t, kt);
        assert(collapse_from(cl, s1, 0) =~= w + collapse_from(cl, t, kt));
        assert(collapse_from(cl, s2, 0) =~= w + collapse_from(cl, t, kt));
    } else {
        assert(repeat_end(cl, r, w, 0) == 0);
        assert forall|m: int| w.len() <= m < w.len() + g.len() implies !is_word_char(
            cl,
            #[trigger] s1[m],
        ) by {
            assert(s1[m] == g[m - w.len()]);
        }
        lemma_collapse_nonword(cl, s1, w.len() as int, (w.len() + g.len()) as int);
        assert(s1.subrange(w.len() as int, (w.len() + g.len()) as int) =~= g);
        let a2 = w + g;
        assert(s1 =~= a2 + (w2 + t));
        lemma_shift_collapse(cl, a2, w2 + t, 0);
        assert(collapse_from(cl, s1, 0) =~= w + (g + collapse_from(cl, w2 + t, 0)));
    }
}

/// A word followed, across whitespace, by the same word up to case (the
/// same lowercased form) keeps only its first occurrence, whatever its
/// length; a different word is kept.
pub proof fn lemma_repeated_word_collapsed(
    cl: Classes,
    w: Seq<char>,
    g: Seq<char>,
    w2: Seq<char>,
    t: Seq<char>,
)
    requires
        valid_classes(cl),
        w.len() > 0,
        forall|m: int| 0 <= m < w.len() ==> is_word_char(cl, #[trigger] w[m]),
        g.len() > 0,
        forall|m: int| 0 <= m < g.len() ==> is_space(cl, #[trigger] g[m]),
        w2.len() > 0,
        forall|m: int| 0 <= m < w2.len() ==> is_word_char(cl, #[trigger] w2[m]),
        t.len() == 0 || !is_word_char(cl, t[0]),
    ensures
        lowered(cl, w2) == lowered(cl, w) ==> collapse_repeats(cl, w + g + w2 + t)
            == collapse_repeats(cl, w + t),
        lowered(cl, w2) != lowered(cl, w) ==> collapse_repeats(cl, w + g + w2 + t) == w + g
            + collapse_repeats(cl, w2 + t),
{
    lemma_same_word_is_equal_lowercase(cl, w2, w);
    lemma_collapse_pair(cl, w, g, w2, t);
    assert(w + g + w2 + t =~= w + (g + (w2 + t)));
    assert(w + (g + collapse_repeats(cl, w2 + t)) =~= w + g + collapse_repeats(cl, w2 + t));
}

/// On a whole transcript: a word that is not a filler, repeated across
/// whitespace with the same lowercased form, is cleaned as if it appeared
/// once.
pub proof fn lemma_repeated_word_cleaned_once(
    cl: Classes,
    w: Seq<char>,
    g: Seq<char>,
    w2: Seq<char>,
    t: Seq<char>,
)
    requires
        valid_classes(cl),
        w.len() > 0,
        forall|m: int| 0 <= m < w.len() ==> is_word_char(cl, #[trigger] w[m]),
        g.len() > 0,
        forall|m: int| 0 <= m < g.len() ==> is_space(cl, #[trigger] g[m]),
        w2.len() > 0,
        forall|m: int| 0 <= m < w2.len() ==> is_word_char(cl, #[trigger] w2[m]),
        t.len() == 0 || !is_word_char(cl, t[0]),
        !is_filler_word(w),
        !is_filler_word(w2),
        lowered(cl, w2) == lowered(cl, w),
    ensures
        cleaned(cl, w + g + w2 + t) == cleaned(cl, w + t),
{
    let st = strip_fillers(cl, t);
    if t.len() > 0 {
        lemma_strip_first(cl, t, 0);
    }
    assert(st.len() == 0 || !is_word_char(cl, st[0]));
    // the filler pass keeps w, the gap and w2
    assert(!is_word_char(cl, g[0]));
    assert((g + (w2 + t))[0] == g[0]);
    lemma_other_word_kept(cl, w, g + (w2 + t));
    lemma_other_word_kept(cl, w2, t);
    lemma_other_word_kept(cl, w, t);
    let s = g + (w2 + t);
    assert forall|m: int| 0 <= m < g.len() implies !is_word_char(cl, #[trigger] s[m]) by {
        assert(s[m] == g[m]);
    }
    lemma_strip_nonword(cl, s, 0, g.len() as int);
    assert(s.subrange(0, g.len() as int) =~= g);
    lemma_shift_strip(cl, g, w2 + t, 0);
    assert(strip_fillers(cl, s) == g + (w2 + st));
    assert(w + g + w2 + t =~= w + (g + (w2 + t)));
    assert(strip_fillers(cl, w + g + w2 + t) =~= w + g + w2 + st);
    lemma_repeated_word_collapsed(cl, w, g, w2, st);
}

} // verus!
