//! Breaking text into the tokens laid out on the lines of a round bubble:
//! every word is a token when it fits the widest line; a word that does not
//! fit is cut greedily into the longest pieces that fit.
use vstd::prelude::*;
use crate::chars::is_ws;

verus! {

/// The number of leading characters of `s` that are not white space.
pub open spec fn leading_run(s: Seq<char>) -> nat
    decreases s.len(),
{
    if s.len() == 0 || is_ws(s[0]) {
        0
    } else {
        1 + leading_run(s.drop_first())
    }
}

/// The words of `s`, in order: its maximal runs of non-white-space
/// characters (`str::split_whitespace`).
pub open spec fn words_of(s: Seq<char>) -> Seq<Seq<char>>
    decreases s.len(),
{
    if s.len() == 0 {
        seq![]
    } else if is_ws(s[0]) {
        words_of(s.drop_first())
    } else {
        let n = leading_run(s);
        proof {
            lemma_leading_run_bounded(s);
        }
        seq![s.take(n as int)] + words_of(s.skip(n as int))
    }
}

/// A word never runs past the end of the text.
pub proof fn lemma_leading_run_bounded(s: Seq<char>)
    ensures
        leading_run(s) <= s.len(),
    decreases s.len(),
{
    if s.len() > 0 && !is_ws(s[0]) {
        lemma_leading_run_bounded(s.drop_first());
    }
}

/// The elements of the sequences of `ps`, joined in order.
pub open spec fn joined<A>(ps: Seq<Seq<A>>) -> Seq<A>
    decreases ps.len(),
{
    if ps.len() == 0 {
        seq![]
    } else {
        joined(ps.drop_last()) + ps.last()
    }
}

/// Whether `fits`, asked about a string of the characters `s`, has answered `b`.
pub open spec fn answered<F: Fn(&str) -> bool>(fits: F, s: Seq<char>, b: bool) -> bool {
    exists|x: &str| x@ == s && #[trigger] call_ensures(fits, (x,), b)
}

/// Whether `ps` cuts the word `w` greedily: non-empty pieces that join to
/// `w`, each grown one character at a time while `fits` accepted the longer
/// piece (a first character is always taken), and each ended when `fits`
/// rejected it grown by the next piece's first character.
pub open spec fn greedy_cut<F: Fn(&str) -> bool>(fits: F, w: Seq<char>, ps: Seq<Seq<char>>) -> bool {
    &&& ps.len() > 0
    &&& forall|m: int| 0 <= m < ps.len() ==> (#[trigger] ps[m]).len() > 0
    &&& joined(ps) == w
    &&& forall|m: int, n: int|
        0 <= m < ps.len() && 2 <= n <= ps[m].len() ==> answered(fits, #[trigger] ps[m].take(n), true)
    &&& forall|m: int|
        0 <= m < ps.len() - 1 ==> answered(fits, (#[trigger] ps[m]).push(ps[m + 1][0]), false)
}

/// Whether `ps` are the tokens of the word `w`: the word itself when `fits`
/// accepted it, otherwise its greedy cut.
pub open spec fn word_tokens<F: Fn(&str) -> bool>(fits: F, w: Seq<char>, ps: Seq<Seq<char>>) -> bool {
    ||| (ps == seq![w] && answered(fits, w, true))
    ||| (answered(fits, w, false) && greedy_cut(fits, w, ps))
}

proof fn lemma_joined_push<A>(ps: Seq<Seq<A>>, p: Seq<A>)
    ensures
        joined(ps.push(p)) == joined(ps) + p,
{
    assert(ps.push(p).drop_last() =~= ps);
}

proof fn lemma_joined_append<A>(a: Seq<Seq<A>>, b: Seq<Seq<A>>)
    ensures
        joined(a + b) == joined(a) + joined(b),
    decreases b.len(),
{
    if b.len() == 0 {
        assert(a + b =~= a);
        assert(joined(a) + joined(b) =~= joined(a));
    } else {
        lemma_joined_append(a, b.drop_last());
        assert((a + b).drop_last() =~= a + b.drop_last());
        assert(joined(a) + joined(b.drop_last()) + b.last() =~= joined(a) + (joined(b.drop_last()) + b.last()));
    }
}

fn copy_chars(v: &Vec<char>) -> (r: Vec<char>)
    ensures
        r@ == v@,
{
    let mut out: Vec<char> = Vec::new();
    let mut i: usize = 0;
    while i < v.len()
        invariant
            i <= v@.len(),
            out@ == v@.take(i as int),
        decreases v@.len() - i,
    {
        out.push(v[i]);
        assert(v@.take(i + 1) =~= v@.take(i as int).push(v@[i as int]));
        i = i + 1;
    }
    assert(v@.take(v@.len() as int) =~= v@);
    out
}

/// Asks `fits` about a string of the characters `v`.
fn ask<F: Fn(&str) -> bool>(fits: &F, v: &Vec<char>) -> (b: bool)
    requires
        forall|x: &str| call_requires(*fits, (x,)),
    ensures
        answered(*fits, v@, b),
{
    let s = crate::chars::string_from_chars(v);
    let x = s.as_str();
    let b = fits(x);
    assert(call_ensures(*fits, (x,), b));
    b
}

/// The tokens of one word (see `word_tokens`).
fn word_pieces<F: Fn(&str) -> bool>(fits: &F, w: &Vec<char>) -> (r: Vec<String>)
    requires
        w@.len() > 0,
        forall|x: &str| call_requires(*fits, (x,)),
    ensures
        word_tokens(*fits, w@, r@.map_values(|t: String| t@)),
{
    if ask(fits, w) {
        let whole = crate::chars::string_from_chars(w);
        let r = vec![whole];
        assert(r@.map_values(|t: String| t@) =~= seq![w@]);
        return r;
    }
    let ghost f = *fits;
    let mut pieces: Vec<String> = Vec::new();
    let mut sub: Vec<char> = Vec::new();
    let mut k: usize = 0;
    while k < w.len()
        invariant
            f == *fits,
            forall|x: &str| call_requires(*fits, (x,)),
            k <= w@.len(),
            joined(pieces@.map_values(|t: String| t@)) + sub@ == w@.take(k as int),
            k > 0 ==> sub@.len() > 0,
            forall|m: int| 0 <= m < pieces@.len() ==> (#[trigger] pieces@[m])@.len() > 0,
            forall|m: int, n: int|
                0 <= m < pieces@.len() && 2 <= n <= pieces@[m]@.len() ==> answered(f, #[trigger] pieces@[m]@.take(n), true),
            forall|n: int| 2 <= n <= sub@.len() ==> answered(f, #[trigger] sub@.take(n), true),
            forall|m: int|
                0 <= m < pieces@.len() - 1 ==> answered(f, (#[trigger] pieces@[m])@.push(pieces@[m + 1]@[0]), false),
            pieces@.len() > 0 ==> answered(f, pieces@.last()@.push(sub@[0]), false),
            pieces@.len() > 0 ==> sub@.len() > 0,
        decreases w@.len() - k,
    {
        let c = w[k];
        let mut cand = copy_chars(&sub);
        cand.push(c);
        let accepted = ask(fits, &cand);
        let ghost done = pieces@.map_values(|t: String| t@);
        if sub.len() > 0 && !accepted {
            let piece = crate::chars::string_from_chars(&sub);
            let ghost old_pieces = pieces@;
            pieces.push(piece);
            proof {
                let now = pieces@.map_values(|t: String| t@);
                assert(now =~= done.push(sub@));
                lemma_joined_push(done, sub@);
                assert forall|m: int, n: int|
                    0 <= m < pieces@.len() && 2 <= n <= pieces@[m]@.len() implies answered(f, #[trigger] pieces@[m]@.take(n), true) by {
                    if m < old_pieces.len() {
                        assert(pieces@[m] == old_pieces[m]);
                    }
                }
                assert forall|m: int|
                    0 <= m < pieces@.len() - 1 implies answered(f, (#[trigger] pieces@[m])@.push(pieces@[m + 1]@[0]), false) by {
                    if m < old_pieces.len() - 1 {
                        assert(pieces@[m] == old_pieces[m]);
                        assert(pieces@[m + 1] == old_pieces[m + 1]);
                    } else {
                        assert(pieces@[m] == old_pieces[m]);
                        assert(pieces@[m + 1]@ == sub@);
                    }
                }
                assert(cand@ == sub@.push(c));
            }
            sub = Vec::new();
            sub.push(c);
            proof {
                assert(w@.take(k + 1) =~= w@.take(k as int).push(c));
                assert(joined(pieces@.map_values(|t: String| t@)) + sub@ =~= w@.take(k + 1));
            }
        } else {
            proof {
                assert(w@.take(k + 1) =~= w@.take(k as int).push(c));
                assert(cand@ == sub@.push(c));
                assert forall|n: int| 2 <= n <= cand@.len() implies answered(f, #[trigger] cand@.take(n), true) by {
                    if n < cand@.len() {
                        assert(cand@.take(n) =~= sub@.take(n));
                    } else {
                        assert(cand@.take(n) =~= cand@);
                    }
                }
                if pieces@.len() > 0 {
                    assert(cand@[0] == sub@[0]);
                }
            }
            sub = cand;
        }
        k = k + 1;
    }
    let ghost done = pieces@.map_values(|t: String| t@);
    let last = crate::chars::string_from_chars(&sub);
    let ghost old_pieces = pieces@;
    pieces.push(last);
    proof {
        let now = pieces@.map_values(|t: String| t@);
        assert(now =~= done.push(sub@));
        lemma_joined_push(done, sub@);
        assert(w@.take(w@.len() as int) =~= w@);
        assert forall|m: int, n: int|
            0 <= m < now.len() && 2 <= n <= now[m].len() implies answered(f, #[trigger] now[m].take(n), true) by {
            if m < old_pieces.len() {
                assert(pieces@[m] == old_pieces[m]);
            }
        }
        assert forall|m: int|
            0 <= m < now.len() - 1 implies answered(f, (#[trigger] now[m]).push(now[m + 1][0]), false) by {
            if m < old_pieces.len() - 1 {
                assert(pieces@[m] == old_pieces[m]);
                assert(pieces@[m + 1] == old_pieces[m + 1]);
            } else {
                assert(pieces@[m] == old_pieces[m]);
            }
        }
        assert forall|m: int| 0 <= m < now.len() implies (#[trigger] now[m]).len() > 0 by {
            if m < old_pieces.len() {
                assert(pieces@[m] == old_pieces[m]);
            }
        }
    }
    pieces
}

} // verus!

verus! {

proof fn lemma_leading_run_exact(s: Seq<char>, n: int)
    requires
        0 <= n <= s.len(),
        forall|k: int| 0 <= k < n ==> !is_ws(#[trigger] s[k]),
        n == s.len() || is_ws(s[n]),
    ensures
        leading_run(s) == n,
    decreases n,
{
    if n > 0 {
        lemma_leading_run_exact(s.drop_first(), n - 1);
    }
}

/// The tokens laid out on a round bubble's lines: the words of `text` in
/// order, each one whole when `fits` accepts it and otherwise cut greedily
/// into the longest pieces `fits` accepts (see `word_tokens`). `fits` tells
/// whether a string fits the widest line.
pub fn circle_tokens<F: Fn(&str) -> bool>(text: &str, fits: F) -> (tokens: Vec<String>)
    requires
        forall|x: &str| call_requires(fits, (x,)),
    ensures
        exists|per_word: Seq<Seq<Seq<char>>>|
            {
                &&& per_word.len() == words_of(text@).len()
                &&& joined(per_word) == tokens@.map_values(|t: String| t@)
                &&& forall|k: int|
                    0 <= k < per_word.len() ==> word_tokens(fits, words_of(text@)[k], #[trigger] per_word[k])
            },
{
    let v = crate::chars::chars_of(text);
    let mut tokens: Vec<String> = Vec::new();
    let ghost mut done: Seq<Seq<char>> = seq![];
    let ghost mut per_word: Seq<Seq<Seq<char>>> = seq![];
    let n = v.len();
    let mut i: usize = 0;
    assert(v@.skip(0) =~= v@);
    while i < n
        invariant
            forall|x: &str| call_requires(fits, (x,)),
            n == v@.len(),
            v@ == text@,
            i <= n,
            words_of(text@) == done + words_of(v@.skip(i as int)),
            per_word.len() == done.len(),
            joined(per_word) == tokens@.map_values(|t: String| t@),
            forall|k: int| 0 <= k < per_word.len() ==> word_tokens(fits, done[k], #[trigger] per_word[k]),
        decreases n - i,
    {
        if crate::chars::is_whitespace(v[i]) {
            assert(v@.skip(i as int).drop_first() =~= v@.skip(i + 1));
            i = i + 1;
        } else {
            let mut j = i;
            while j < n && !crate::chars::is_whitespace(v[j])
                invariant
                    i <= j <= n,
                    n == v@.len(),
                    forall|k: int| i <= k < j ==> !is_ws(#[trigger] v@[k]),
                decreases n - j,
            {
                j = j + 1;
            }
            let mut word: Vec<char> = Vec::new();
            let mut p = i;
            while p < j
                invariant
                    i <= p <= j <= n,
                    n == v@.len(),
                    word@ == v@.subrange(i as int, p as int),
                decreases j - p,
            {
                word.push(v[p]);
                assert(v@.subrange(i as int, p + 1) =~= v@.subrange(i as int, p as int).push(v@[p as int]));
                p = p + 1;
            }
            proof {
                let s = v@.skip(i as int);
                lemma_leading_run_exact(s, j - i);
                assert(s.take(j - i) =~= word@);
                assert(s.skip(j - i) =~= v@.skip(j as int));
                assert(words_of(s) == seq![word@] + words_of(v@.skip(j as int)));
            }
            let pieces = word_pieces(&fits, &word);
            let ghost before = tokens@.map_values(|t: String| t@);
            let ghost pv = pieces@.map_values(|t: String| t@);
            let mut q: usize = 0;
            while q < pieces.len()
                invariant
                    q <= pieces@.len(),
                    pv == pieces@.map_values(|t: String| t@),
                    tokens@.map_values(|t: String| t@) == before + pv.take(q as int),
                decreases pieces@.len() - q,
            {
                let piece = pieces[q].clone();
                assert(piece@ == pv[q as int]);
                let ghost prev = tokens@;
                tokens.push(piece);
                assert(tokens@ == prev.push(piece));
                assert(tokens@.map_values(|t: String| t@) =~= prev.map_values(|t: String| t@).push(piece@));
                assert(pv.take(q + 1) =~= pv.take(q as int).push(pv[q as int]));
                assert(tokens@.map_values(|t: String| t@) =~= before + pv.take(q + 1));
                q = q + 1;
            }
            proof {
                assert(pv.take(pv.len() as int) =~= pv);
                lemma_joined_push(per_word, pv);
                let old_done = done;
                let old_per_word = per_word;
                done = done.push(word@);
                per_word = per_word.push(pv);
                assert(words_of(text@) =~= done + words_of(v@.skip(j as int)));
                assert forall|k: int| 0 <= k < per_word.len() implies word_tokens(fits, done[k], #[trigger] per_word[k]) by {
                    if k < old_per_word.len() {
                        assert(per_word[k] == old_per_word[k]);
                        assert(done[k] == old_done[k]);
                    }
                }
            }
            i = j;
        }
    }
    proof {
        assert(v@.skip(n as int) =~= Seq::<char>::empty());
        assert(done =~= words_of(text@));
    }
    tokens
}

} // verus!

verus! {

/// Cutting loses and adds nothing: the tokens of each word join back to the
/// word, so all tokens joined are the words joined.
pub proof fn lemma_tokens_join_to_words<F: Fn(&str) -> bool>(
    fits: F,
    words: Seq<Seq<char>>,
    per_word: Seq<Seq<Seq<char>>>,
)
    requires
        per_word.len() == words.len(),
        forall|k: int| 0 <= k < per_word.len() ==> word_tokens(fits, words[k], #[trigger] per_word[k]),
    ensures
        joined(joined(per_word)) == joined(words),
    decreases words.len(),
{
    if words.len() > 0 {
        let k = words.len() - 1;
        assert(word_tokens(fits, words[k], per_word[k]));
        lemma_tokens_join_to_words(fits, words.drop_last(), per_word.drop_last());
        lemma_joined_append(joined(per_word.drop_last()), per_word.last());
        if per_word.last() == seq![words.last()] {
            assert(seq![words.last()].drop_last() =~= Seq::<Seq<char>>::empty());
            assert(joined(seq![words.last()].drop_last()) == Seq::<char>::empty());
            assert(joined(seq![words.last()]) =~= words.last());
        }
    }
}

} // verus!

verus! {

/// The text of a line holding the tokens `ts`: each token is set off from
/// the text before it by one space, unless that text is still empty.
pub open spec fn line_text(ts: Seq<Seq<char>>) -> Seq<char>
    decreases ts.len(),
{
    if ts.len() == 0 {
        seq![]
    } else {
        let acc = line_text(ts.drop_last());
        if acc.len() == 0 {
            ts.last()
        } else {
            acc + seq![' '] + ts.last()
        }
    }
}

/// Whether `fits`, asked whether a string of the characters `s` fits line
/// `i`, has answered `b`.
pub open spec fn line_answered<F: Fn(usize, &str) -> bool>(fits: F, i: usize, s: Seq<char>, b: bool) -> bool {
    exists|x: &str| x@ == s && #[trigger] call_ensures(fits, (i, x), b)
}

/// Whether line `i` grew from token `a` to token `b`: `fits` accepted the
/// line's text after each token was added.
pub open spec fn grew<F: Fn(usize, &str) -> bool>(fits: F, ts: Seq<Seq<char>>, i: usize, a: int, b: int) -> bool {
    forall|k: int| a < k <= b ==> line_answered(fits, i, line_text(#[trigger] ts.subrange(a, k)), true)
}

/// The first token of line `i`, where line `j` ends before token `ends[j]`.
pub open spec fn line_start(ends: Seq<int>, i: int) -> int {
    if i <= 0 {
        0
    } else {
        ends[i - 1]
    }
}

/// Whether the lines ending before the tokens `ends` were each filled
/// greedily: a line takes tokens while `fits` accepts its longer text, and
/// a line that stops before the last token stopped on a refusal, holding
/// some text.
pub open spec fn greedy_lines<F: Fn(usize, &str) -> bool>(fits: F, ts: Seq<Seq<char>>, ends: Seq<int>) -> bool {
    forall|i: int|
        0 <= i < ends.len() ==> {
            let a = line_start(ends, i);
            &&& a < #[trigger] ends[i] <= ts.len()
            &&& grew(fits, ts, i as usize, a, ends[i])
            &&& ends[i] < ts.len() ==> line_text(ts.subrange(a, ends[i])).len() > 0 && line_answered(
                fits,
                i as usize,
                line_text(ts.subrange(a, ends[i] + 1)),
                false,
            )
        }
}

proof fn lemma_line_text_step(ts: Seq<Seq<char>>, a: int, k: int)
    requires
        0 <= a <= k < ts.len(),
    ensures
        line_text(ts.subrange(a, k + 1)) == (if line_text(ts.subrange(a, k)).len() == 0 {
            ts[k]
        } else {
            line_text(ts.subrange(a, k)) + seq![' '] + ts[k]
        }),
{
    assert(ts.subrange(a, k + 1).drop_last() =~= ts.subrange(a, k));
}

/// Asks `fits` whether `s` fits line `i`.
fn ask_line<F: Fn(usize, &str) -> bool>(fits: &F, i: usize, s: &String) -> (b: bool)
    requires
        forall|j: usize, x: &str| call_requires(*fits, (j, x)),
    ensures
        line_answered(*fits, i, s@, b),
{
    let x = s.as_str();
    let b = fits(i, x);
    assert(call_ensures(*fits, (i, x), b));
    b
}

/// The line text `content` with `token` added.
fn extend_line(content: &String, token: &String) -> (r: String)
    ensures
        r@ == (if content@.len() == 0 {
            token@
        } else {
            content@ + seq![' '] + token@
        }),
{
    if content.as_str().is_empty() {
        return token.clone();
    }
    let mut out = content.clone();
    crate::chars::push_char(&mut out, ' ');
    let t = crate::chars::chars_of(token.as_str());
    let ghost base = out@;
    for i in 0..t.len()
        invariant
            out@ == base + t@.take(i as int),
    {
        crate::chars::push_char(&mut out, t[i]);
        assert(t@.take(i + 1) =~= t@.take(i as int).push(t@[i as int]));
    }
    assert(t@.take(t@.len() as int) =~= t@);
    out
}


proof fn lemma_greedy_push<F: Fn(usize, &str) -> bool>(fits: F, ts: Seq<Seq<char>>, ends: Seq<int>, b: int)
    requires
        greedy_lines(fits, ts, ends),
        last_end(ends) < b <= ts.len(),
        grew(fits, ts, ends.len() as usize, last_end(ends), b),
        b < ts.len() ==> line_text(ts.subrange(last_end(ends), b)).len() > 0 && line_answered(
            fits,
            ends.len() as usize,
            line_text(ts.subrange(last_end(ends), b + 1)),
            false,
        ),
    ensures
        greedy_lines(fits, ts, ends.push(b)),
{
    let new_ends = ends.push(b);
    assert forall|i: int| 0 <= i < new_ends.len() implies {
        let a = line_start(new_ends, i);
        &&& a < #[trigger] new_ends[i] <= ts.len()
        &&& grew(fits, ts, i as usize, a, new_ends[i])
        &&& new_ends[i] < ts.len() ==> line_text(ts.subrange(a, new_ends[i])).len() > 0 && line_answered(
            fits,
            i as usize,
            line_text(ts.subrange(a, new_ends[i] + 1)),
            false,
        )
    } by {
        if i < ends.len() {
            assert(new_ends[i] == ends[i]);
            assert(line_start(new_ends, i) == line_start(ends, i));
        } else {
            assert(line_start(new_ends, i) == last_end(ends));
        }
    }
}

/// The views of the tokens `tokens`.
pub open spec fn token_views(tokens: Seq<String>) -> Seq<Seq<char>> {
    tokens.map_values(|t: String| t@)
}

/// Where the last of the lines ending before `ends` stops.
pub open spec fn last_end(ends: Seq<int>) -> int {
    line_start(ends, ends.len() as int)
}

/// Lays the tokens `tokens` on at most `lines` lines, filling each line
/// greedily in turn: a line takes the next token while `fits` accepts the
/// line's text with it, the token set off by a space. `fits(i, s)` tells
/// whether `s` fits line `i`. Fails (`None`) when a line cannot take any
/// token, or when tokens are left after the last line; otherwise returns
/// the texts of the lines used.
pub fn pack_lines<F: Fn(usize, &str) -> bool>(tokens: &Vec<String>, lines: usize, fits: F) -> (r: Option<Vec<String>>)
    requires
        forall|j: usize, x: &str| call_requires(fits, (j, x)),
    ensures
        match r {
            Some(ls) => exists|ends: Seq<int>|
                {
                    &&& #[trigger] greedy_lines(fits, token_views(tokens@), ends)
                    &&& ends.len() <= lines
                    &&& last_end(ends) == tokens@.len()
                    &&& ls@.len() == ends.len()
                    &&& forall|i: int|
                        0 <= i < ends.len() ==> (#[trigger] ls@[i])@ == line_text(
                            token_views(tokens@).subrange(line_start(ends, i), ends[i]),
                        )
                },
            None => exists|ends: Seq<int>|
                {
                    &&& #[trigger] greedy_lines(fits, token_views(tokens@), ends)
                    &&& last_end(ends) < tokens@.len()
                    &&& ends.len() <= lines
                    &&& (ends.len() == lines || exists|k: int|
                        {
                            &&& last_end(ends) <= k < tokens@.len()
                            &&& #[trigger] grew(fits, token_views(tokens@), ends.len() as usize, last_end(ends), k)
                            &&& line_text(token_views(tokens@).subrange(last_end(ends), k)).len() == 0
                            &&& line_answered(
                                fits,
                                ends.len() as usize,
                                line_text(token_views(tokens@).subrange(last_end(ends), k + 1)),
                                false,
                            )
                        })
                },
        },
{
    let ghost ts = token_views(tokens@);
    let mut out: Vec<String> = Vec::new();
    let ghost mut ends: Seq<int> = seq![];
    let mut idx: usize = 0;
    let mut line: usize = 0;
    while line < lines && idx < tokens.len()
        invariant
            forall|j: usize, x: &str| call_requires(fits, (j, x)),
            ts == token_views(tokens@),
            line == ends.len(),
            line <= lines,
            idx == last_end(ends),
            idx <= tokens@.len(),
            greedy_lines(fits, ts, ends),
            out@.len() == ends.len(),
            forall|i: int|
                0 <= i < ends.len() ==> (#[trigger] out@[i])@ == line_text(ts.subrange(line_start(ends, i), ends[i])),
        decreases lines - line,
    {
        let start = idx;
        let mut content = String::new();
        let mut stop = false;
        assert(ts.subrange(start as int, start as int) =~= Seq::<Seq<char>>::empty());
        while idx < tokens.len() && !stop
            invariant
                forall|j: usize, x: &str| call_requires(fits, (j, x)),
                ts == token_views(tokens@),
                line == ends.len(),
                line < lines,
                start == last_end(ends),
                start < tokens@.len(),
                start <= idx <= tokens@.len(),
                content@ == line_text(ts.subrange(start as int, idx as int)),
                grew(fits, ts, line, start as int, idx as int),
                greedy_lines(fits, ts, ends),
                stop ==> idx < tokens@.len() && content@.len() > 0 && line_answered(
                    fits,
                    line,
                    line_text(ts.subrange(start as int, idx + 1)),
                    false,
                ),
            decreases tokens@.len() - idx + (if stop { 0int } else { 1int }),
        {
            let cand = extend_line(&content, &tokens[idx]);
            proof {
                lemma_line_text_step(ts, start as int, idx as int);
            }
            let ok = ask_line(&fits, line, &cand);
            if ok {
                proof {
                    assert forall|k: int| start < k <= idx + 1 implies line_answered(
                        fits,
                        line,
                        line_text(#[trigger] ts.subrange(start as int, k)),
                        true,
                    ) by {
                        if k <= idx {
                            assert(grew(fits, ts, line, start as int, idx as int));
                        }
                    }
                }
                content = cand;
                idx = idx + 1;
            } else if content.as_str().is_empty() {
                proof {
                    assert(grew(fits, token_views(tokens@), ends.len() as usize, last_end(ends), idx as int));
                    assert(greedy_lines(fits, token_views(tokens@), ends));
                }
                return None;
            } else {
                stop = true;
            }
        }
        proof {
            if idx == start {
                assert(ts.subrange(start as int, idx as int) =~= Seq::<Seq<char>>::empty());
            }
            lemma_greedy_push(fits, ts, ends, idx as int);
            ends = ends.push(idx as int);
        }
        out.push(content);
        proof {
            assert forall|i: int| 0 <= i < ends.len() implies (#[trigger] out@[i])@ == line_text(
                ts.subrange(line_start(ends, i), ends[i]),
            ) by {
                if i < ends.len() - 1 {
                    assert(line_start(ends, i) == line_start(ends.drop_last(), i));
                }
            }
        }
        line = line + 1;
    }
    if idx >= tokens.len() {
        proof {
            assert(greedy_lines(fits, token_views(tokens@), ends));
        }
        Some(out)
    } else {
        proof {
            assert(greedy_lines(fits, token_views(tokens@), ends));
        }
        None
    }
}

} // verus!
