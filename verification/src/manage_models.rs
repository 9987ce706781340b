//! Search over model names in the model-management overlay: a query matches
//! a model when every word of the query occurs in the model name, after
//! both are normalized (separators become spaces, letters become lower case).
use vstd::prelude::*;
use crate::chars::{is_ws, all_ws};

verus! {

/// The Unicode lower-case mapping of a string (`str::to_lowercase`).
pub uninterp spec fn unicode_lowercase(s: Seq<char>) -> Seq<char>;

/// `str::to_lowercase`: the string with every character replaced by its
/// Unicode lower-case mapping. The contract names the result; the mapping
/// itself (Unicode tables) is not written out here.
#[verifier::external_body]
fn to_lowercase(s: &str) -> (r: String)
    ensures
        r@ == unicode_lowercase(s@),
{
    s.to_lowercase()
}

/// Whether `c` separates words in a model id (`-`, `/`, `.`, `_`).
pub open spec fn is_separator(c: char) -> bool {
    c == '-' || c == '/' || c == '.' || c == '_'
}

/// `s` with every separator replaced by a space.
pub open spec fn separators_to_spaces(s: Seq<char>) -> Seq<char> {
    s.map_values(|c: char| if is_separator(c) { ' ' } else { c })
}

/// The form in which queries and model names are compared.
pub open spec fn normalized(s: Seq<char>) -> Seq<char> {
    unicode_lowercase(separators_to_spaces(s))
}

/// Whether `q[i..j]` is a word of `q`: a maximal run of characters that
/// are not white space.
pub open spec fn is_word(q: Seq<char>, i: int, j: int) -> bool {
    &&& 0 <= i < j <= q.len()
    &&& forall|k: int| i <= k < j ==> !is_ws(#[trigger] q[k])
    &&& (i == 0 || is_ws(q[i - 1]))
    &&& (j == q.len() || is_ws(q[j]))
}

/// Whether `t` occurs in `m` as a contiguous run.
pub open spec fn occurs_in(m: Seq<char>, t: Seq<char>) -> bool {
    exists|k: int| 0 <= k && k + t.len() <= m.len() && #[trigger] m.subrange(k, k + t.len()) == t
}

/// Whether every word of `q` occurs in `m`.
pub open spec fn words_occur(q: Seq<char>, m: Seq<char>) -> bool {
    forall|i: int, j: int| #[trigger] is_word(q, i, j) ==> occurs_in(m, q.subrange(i, j))
}

/// Whether the search `query` lists `model`: a blank query lists every
/// model; otherwise every word of the normalized query must occur in the
/// normalized model name.
pub open spec fn matches_model(query: Seq<char>, model: Seq<char>) -> bool {
    all_ws(query) || words_occur(normalized(query), normalized(model))
}

/// Normalizes a query or model name for searching: `-`, `/`, `.` and `_`
/// become spaces, then the whole string is lower-cased.
pub fn normalize_for_search(s: &str) -> (r: String)
    ensures
        r@ == normalized(s@),
{
    let v = crate::chars::chars_of(s);
    let mut out = String::new();
    let mut i: usize = 0;
    while i < v.len()
        invariant
            i <= v@.len(),
            v@ == s@,
            out@ == separators_to_spaces(s@).take(i as int),
        decreases v@.len() - i,
    {
        let c = v[i];
        let mapped = if c == '-' || c == '/' || c == '.' || c == '_' {
            ' '
        } else {
            c
        };
        crate::chars::push_char(&mut out, mapped);
        assert(separators_to_spaces(s@).take(i + 1) =~= separators_to_spaces(s@).take(i as int).push(mapped));
        i = i + 1;
    }
    assert(separators_to_spaces(s@).take(v@.len() as int) =~= separators_to_spaces(s@));
    to_lowercase(out.as_str())
}

/// Whether `q[i..j]` occurs in `m`.
fn occurs_at_some_offset(m: &Vec<char>, q: &Vec<char>, i: usize, j: usize) -> (r: bool)
    requires
        i <= j <= q@.len(),
    ensures
        r == occurs_in(m@, q@.subrange(i as int, j as int)),
{
    let ghost t = q@.subrange(i as int, j as int);
    let n = j - i;
    if n > m.len() {
        return false;
    }
    let mut k: usize = 0;
    while k <= m.len() - n
        invariant
            n == t.len(),
            t == q@.subrange(i as int, j as int),
            i <= j <= q@.len(),
            n <= m@.len(),
            forall|x: int| 0 <= x < k ==> #[trigger] m@.subrange(x, x + n) != t,
        decreases m@.len() - k,
    {
        let mlen = m.len();
        let mut p: usize = 0;
        let mut same = true;
        while p < n && same
            invariant
                p <= n,
                k + n <= m@.len(),
                mlen == m@.len(),
                i + n <= q@.len(),
                n == j - i,
                m@.subrange(k as int, k + p) == q@.subrange(i as int, i + p),
                !same ==> p < n && m@[k + p] != q@[i + p],
            decreases n - p + (if same { 1int } else { 0int }),
        {
            if m[k + p] == q[i + p] {
                assert(m@.subrange(k as int, k + p + 1) =~= m@.subrange(k as int, k + p).push(m@[k + p]));
                assert(q@.subrange(i as int, i + p + 1) =~= q@.subrange(i as int, i + p).push(q@[i + p]));
                p = p + 1;
            } else {
                same = false;
            }
        }
        if p == n {
            assert(m@.subrange(k as int, k + n) =~= t);
            return true;
        }
        assert(m@.subrange(k as int, k + n)[p as int] != t[p as int]);
        k = k + 1;
    }
    proof {
        assert forall|x: int| 0 <= x && x + t.len() <= m@.len() implies #[trigger] m@.subrange(x, x + t.len()) != t by {
            assert(x < k);
        }
    }
    false
}

/// Whether every character of `s` is white space.
fn all_whitespace(s: &str) -> (r: bool)
    ensures
        r == all_ws(s@),
{
    let v = crate::chars::chars_of(s);
    let mut i: usize = 0;
    while i < v.len()
        invariant
            i <= v@.len(),
            v@ == s@,
            forall|k: int| 0 <= k < i ==> is_ws(#[trigger] v@[k]),
        decreases v@.len() - i,
    {
        if !crate::chars::is_whitespace(v[i]) {
            return false;
        }
        i = i + 1;
    }
    true
}

/// Whether every word of `q` occurs in `m`.
pub fn all_words_occur(q: &Vec<char>, m: &Vec<char>) -> (r: bool)
    ensures
        r == words_occur(q@, m@),
{
    let n = q.len();
    let mut i: usize = 0;
    while i < n
        invariant
            n == q@.len(),
            i <= n,
            i == 0 || i == n || is_ws(q@[i - 1]) || is_ws(q@[i as int]),
            forall|a: int, b: int| #[trigger] is_word(q@, a, b) && a < i ==> occurs_in(m@, q@.subrange(a, b)),
        decreases n - i,
    {
        if crate::chars::is_whitespace(q[i]) {
            i = i + 1;
        } else {
            let mut j = i;
            while j < n && !crate::chars::is_whitespace(q[j])
                invariant
                    i <= j <= n,
                    n == q@.len(),
                    forall|k: int| i <= k < j ==> !is_ws(#[trigger] q@[k]),
                decreases n - j,
            {
                j = j + 1;
            }
            assert(is_word(q@, i as int, j as int));
            if !occurs_at_some_offset(m, q, i, j) {
                return false;
            }
            proof {
                assert forall|a: int, b: int| #[trigger] is_word(q@, a, b) && a < j implies occurs_in(m@, q@.subrange(a, b)) by {
                    if a >= i {
                        if a > i {
                            assert(!is_ws(q@[a - 1]));
                        } else {
                            if b < j {
                                assert(!is_ws(q@[b]));
                            } else if b > j {
                                assert(!is_ws(q@[j as int]));
                            }
                        }
                    }
                }
            }
            i = j;
        }
    }
    true
}

/// Whether the search `query` lists `model` (see `matches_model`).
pub fn model_matches(query: &str, model: &str) -> (r: bool)
    ensures
        r == matches_model(query@, model@),
{
    if all_whitespace(query) {
        return true;
    }
    let q_norm = normalize_for_search(query);
    let m_norm = normalize_for_search(model);
    let q = crate::chars::chars_of(q_norm.as_str());
    let m = crate::chars::chars_of(m_norm.as_str());
    all_words_occur(&q, &m)
}

} // verus!

verus! {

/// A blank query lists every model.
pub proof fn lemma_blank_query_matches_all(query: Seq<char>, model: Seq<char>)
    requires
        all_ws(query),
    ensures
        matches_model(query, model),
{
}

/// Every model is listed when searched for by its own name.
pub proof fn lemma_model_matches_own_name(model: Seq<char>)
    ensures
        matches_model(model, model),
{
    let q = normalized(model);
    assert forall|i: int, j: int| #[trigger] is_word(q, i, j) implies occurs_in(q, q.subrange(i, j)) by {
        assert(q.subrange(i, i + q.subrange(i, j).len()) == q.subrange(i, j));
    }
}

} // verus!

verus! {

/// A model as listed: its wire id and its display name.
pub type ModelView = (Seq<char>, Seq<char>);

/// The models of `models` that the search `query` lists, by id or by
/// display name, in their order.
pub open spec fn models_listed(query: Seq<char>, models: Seq<ModelView>) -> Seq<ModelView>
    decreases models.len(),
{
    if models.len() == 0 {
        seq![]
    } else {
        let rest = models_listed(query, models.drop_last());
        let m = models.last();
        if matches_model(query, m.0) || matches_model(query, m.1) {
            rest.push(m)
        } else {
            rest
        }
    }
}

/// A model is listed by a search exactly when it is one of the models and
/// the query matches its id or its display name; listing keeps no other.
pub proof fn lemma_models_listed_members(query: Seq<char>, models: Seq<ModelView>, m: ModelView)
    ensures
        models_listed(query, models).contains(m) <==> (models.contains(m) && (matches_model(query, m.0)
            || matches_model(query, m.1))),
    decreases models.len(),
{
    if models.len() > 0 {
        let rest = models.drop_last();
        lemma_models_listed_members(query, rest, m);
        assert(models =~= rest.push(models.last()));
        if models.contains(m) && !rest.contains(m) {
            let k = choose|k: int| 0 <= k < models.len() && models[k] == m;
            if k < rest.len() {
                assert(rest[k] == m);
            }
            assert(m == models.last());
        }
        if rest.contains(m) {
            let k = choose|k: int| 0 <= k < rest.len() && rest[k] == m;
            assert(models[k] == m);
        }
        let last = models.last();
        if matches_model(query, last.0) || matches_model(query, last.1) {
            let listed = models_listed(query, rest).push(last);
            assert(listed[listed.len() - 1] == last);
            if models_listed(query, rest).contains(m) {
                let k = choose|k: int| 0 <= k < models_listed(query, rest).len() && models_listed(query, rest)[k] == m;
                assert(listed[k] == m);
            }
            if listed.contains(m) && m != last {
                let k = choose|k: int| 0 <= k < listed.len() && listed[k] == m;
                assert(models_listed(query, rest)[k] == m);
            }
        }
    }
}

/// The views of a list of `(id, name)` models.
pub open spec fn model_views(models: Seq<(String, String)>) -> Seq<ModelView> {
    models.map_values(|m: (String, String)| (m.0@, m.1@))
}

/// The models of one provider that the search `query` lists: those whose
/// id or display name matches, in their order.
pub fn filter_models(query: &str, models: &Vec<(String, String)>) -> (r: Vec<(String, String)>)
    ensures
        model_views(r@) == models_listed(query@, model_views(models@)),
        forall|m: ModelView|
            #[trigger] model_views(r@).contains(m) <==> (model_views(models@).contains(m) && (
            matches_model(query@, m.0) || matches_model(query@, m.1))),
{
    let mut out: Vec<(String, String)> = Vec::new();
    let mut i: usize = 0;
    while i < models.len()
        invariant
            i <= models@.len(),
            model_views(out@) == models_listed(query@, model_views(models@).take(i as int)),
        decreases models@.len() - i,
    {
        let ghost before = out@;
        assert(model_views(models@).take(i + 1).drop_last() =~= model_views(models@).take(i as int));
        let (id, name) = (&models[i].0, &models[i].1);
        if model_matches(query, id.as_str()) || model_matches(query, name.as_str()) {
            out.push((id.clone(), name.clone()));
            assert(model_views(out@) =~= model_views(before).push((id@, name@)));
        }
        i = i + 1;
    }
    assert(model_views(models@).take(models@.len() as int) =~= model_views(models@));
    proof {
        assert forall|m: ModelView|
            #[trigger] model_views(out@).contains(m) <==> (model_views(models@).contains(m) && (
            matches_model(query@, m.0) || matches_model(query@, m.1))) by {
            lemma_models_listed_members(query@, model_views(models@), m);
        }
    }
    out
}

/// How many ids of `ids` are not in `hidden`.
pub open spec fn visible_count(ids: Seq<Seq<char>>, hidden: Seq<Seq<char>>) -> nat
    decreases ids.len(),
{
    if ids.len() == 0 {
        0
    } else {
        visible_count(ids.drop_last(), hidden) + if hidden.contains(ids.last()) {
            0nat
        } else {
            1nat
        }
    }
}

/// The views of a list of strings.
pub open spec fn string_views(v: Seq<String>) -> Seq<Seq<char>> {
    v.map_values(|s: String| s@)
}

fn contains_string(v: &Vec<String>, s: &String) -> (r: bool)
    ensures
        r == string_views(v@).contains(s@),
{
    let mut i: usize = 0;
    while i < v.len()
        invariant
            i <= v@.len(),
            forall|k: int| 0 <= k < i ==> string_views(v@)[k] != s@,
        decreases v@.len() - i,
    {
        if v[i] == *s {
            assert(string_views(v@)[i as int] == s@);
            return true;
        }
        i = i + 1;
    }
    false
}

/// A provider card's header: `(visible, total, master)` where `total` is
/// the number of listed models, `visible` the number of them not hidden,
/// and the master toggle is on when any listed model is visible.
pub fn provider_summary(filtered: &Vec<String>, hidden: &Vec<String>) -> (r: (usize, usize, bool))
    ensures
        r.0 == visible_count(string_views(filtered@), string_views(hidden@)),
        r.1 == filtered@.len(),
        r.2 == (r.0 > 0),
{
    let mut visible: usize = 0;
    let mut i: usize = 0;
    while i < filtered.len()
        invariant
            i <= filtered@.len(),
            visible == visible_count(string_views(filtered@).take(i as int), string_views(hidden@)),
            visible <= i,
        decreases filtered@.len() - i,
    {
        assert(string_views(filtered@).take(i + 1).drop_last() =~= string_views(filtered@).take(i as int));
        if !contains_string(hidden, &filtered[i]) {
            visible = visible + 1;
        }
        i = i + 1;
    }
    assert(string_views(filtered@).take(filtered@.len() as int) =~= string_views(filtered@));
    (visible, filtered.len(), visible > 0)
}

} // verus!

verus! {

/// The hidden models store: entries of a provider id and hidden model ids.
pub type HiddenView = Seq<(Seq<char>, Seq<Seq<char>>)>;

/// The view of a hidden-models list.
pub open spec fn hidden_view(v: Seq<(String, Vec<String>)>) -> HiddenView {
    v.map_values(|e: (String, Vec<String>)| (e.0@, string_views(e.1@)))
}

/// Whether provider `p` has an entry in the store.
pub open spec fn is_listed(v: HiddenView, p: Seq<char>) -> bool {
    exists|i: int| 0 <= i < v.len() && (#[trigger] v[i]).0 == p
}

/// Whether model `id` of provider `p` is hidden.
pub open spec fn is_hidden(v: HiddenView, p: Seq<char>, id: Seq<char>) -> bool {
    exists|i: int| 0 <= i < v.len() && (#[trigger] v[i]).0 == p && v[i].1.contains(id)
}

fn copy_strings(v: &Vec<String>) -> (r: Vec<String>)
    ensures
        string_views(r@) == string_views(v@),
{
    let mut out: Vec<String> = Vec::new();
    let mut i: usize = 0;
    while i < v.len()
        invariant
            i <= v@.len(),
            string_views(out@) == string_views(v@).take(i as int),
        decreases v@.len() - i,
    {
        let ghost before = out@;
        out.push(v[i].clone());
        assert(string_views(out@) =~= string_views(before).push(v@[i as int]@));
        assert(string_views(v@).take(i + 1) =~= string_views(v@).take(i as int).push(v@[i as int]@));
        i = i + 1;
    }
    assert(string_views(v@).take(v@.len() as int) =~= string_views(v@));
    out
}

fn ids_without(ids: &Vec<String>, models: &Vec<String>) -> (r: Vec<String>)
    ensures
        forall|x: Seq<char>| #[trigger] string_views(r@).contains(x) <==> (string_views(ids@).contains(x)
            && !string_views(models@).contains(x)),
{
    let mut out: Vec<String> = Vec::new();
    let mut i: usize = 0;
    while i < ids.len()
        invariant
            i <= ids@.len(),
            forall|x: Seq<char>| #[trigger] string_views(out@).contains(x) <==> (string_views(ids@).take(i as int).contains(x)
                && !string_views(models@).contains(x)),
        decreases ids@.len() - i,
    {
        let ghost before = out@;
        assert(string_views(ids@).take(i + 1) =~= string_views(ids@).take(i as int).push(ids@[i as int]@));
        let ghost here = ids@[i as int]@;
        assert(string_views(ids@).take(i + 1)[i as int] == here);
        proof {
            let t1 = string_views(ids@).take(i + 1);
            let t0 = string_views(ids@).take(i as int);
            assert forall|x: Seq<char>| t1.contains(x) <==> (t0.contains(x) || x == here) by {
                if t1.contains(x) {
                    let k = choose|k: int| 0 <= k < t1.len() && t1[k] == x;
                    if k < i {
                        assert(t0[k] == x);
                    }
                }
                if t0.contains(x) {
                    let k = choose|k: int| 0 <= k < t0.len() && t0[k] == x;
                    assert(t1[k] == x);
                }
                if x == here {
                    assert(t1[i as int] == x);
                }
            }
        }
        if !contains_string(models, &ids[i]) {
            out.push(ids[i].clone());
            assert(string_views(out@) =~= string_views(before).push(here));
            proof {
                let o = string_views(out@);
                let b = string_views(before);
                assert forall|x: Seq<char>| o.contains(x) <==> (b.contains(x) || x == here) by {
                    if o.contains(x) {
                        let k = choose|k: int| 0 <= k < o.len() && o[k] == x;
                        if k < b.len() {
                            assert(b[k] == x);
                        }
                    }
                    if b.contains(x) {
                        let k = choose|k: int| 0 <= k < b.len() && b[k] == x;
                        assert(o[k] == x);
                    }
                    if x == here {
                        assert(o[b.len() as int] == x);
                    }
                }
            }
        }
        i = i + 1;
    }
    assert(string_views(ids@).take(ids@.len() as int) =~= string_views(ids@));
    out
}

fn ids_with(ids: &Vec<String>, models: &Vec<String>) -> (r: Vec<String>)
    ensures
        string_views(r@) == string_views(ids@) + string_views(models@),
{
    let mut out = copy_strings(ids);
    let mut more = copy_strings(models);
    let ghost a = out@;
    let ghost b = more@;
    out.append(&mut more);
    assert(string_views(out@) =~= string_views(a) + string_views(b));
    out
}

proof fn lemma_store_push(v: HiddenView, e: (Seq<char>, Seq<Seq<char>>))
    ensures
        forall|q: Seq<char>, id: Seq<char>|
            #[trigger] is_hidden(v.push(e), q, id) == (is_hidden(v, q, id) || (e.0 == q && e.1.contains(id))),
        forall|q: Seq<char>| #[trigger] is_listed(v.push(e), q) == (is_listed(v, q) || e.0 == q),
{
    let w = v.push(e);
    assert forall|q: Seq<char>, id: Seq<char>|
        #[trigger] is_hidden(w, q, id) == (is_hidden(v, q, id) || (e.0 == q && e.1.contains(id))) by {
        if is_hidden(w, q, id) {
            let k = choose|k: int| 0 <= k < w.len() && (#[trigger] w[k]).0 == q && w[k].1.contains(id);
            if k < v.len() {
                assert(v[k] == w[k]);
            }
        }
        if is_hidden(v, q, id) {
            let k = choose|k: int| 0 <= k < v.len() && (#[trigger] v[k]).0 == q && v[k].1.contains(id);
            assert(w[k] == v[k]);
        }
        if e.0 == q && e.1.contains(id) {
            assert(w[w.len() - 1] == e);
        }
    }
    assert forall|q: Seq<char>| #[trigger] is_listed(w, q) == (is_listed(v, q) || e.0 == q) by {
        if is_listed(w, q) {
            let k = choose|k: int| 0 <= k < w.len() && (#[trigger] w[k]).0 == q;
            if k < v.len() {
                assert(v[k] == w[k]);
            }
        }
        if is_listed(v, q) {
            let k = choose|k: int| 0 <= k < v.len() && (#[trigger] v[k]).0 == q;
            assert(w[k] == v[k]);
        }
        if e.0 == q {
            assert(w[w.len() - 1] == e);
        }
    }
}

/// Shows (`visible`) or hides the models `models` of provider `provider`:
/// showing drops them from the provider's hidden set and drops the
/// provider's entry once nothing of it is hidden; hiding adds them, making
/// an entry for the provider if it has none. Other providers are untouched.
pub fn set_visible(
    hidden: &mut Vec<(String, Vec<String>)>,
    provider: &str,
    models: &Vec<String>,
    visible: bool,
)
    ensures
        forall|q: Seq<char>|
            q != provider@ ==> #[trigger] is_listed(hidden_view(final(hidden)@), q) == is_listed(
                hidden_view(old(hidden)@),
                q,
            ),
        forall|q: Seq<char>, id: Seq<char>|
            q != provider@ ==> #[trigger] is_hidden(hidden_view(final(hidden)@), q, id) == is_hidden(
                hidden_view(old(hidden)@),
                q,
                id,
            ),
        visible ==> forall|id: Seq<char>|
            #[trigger] is_hidden(hidden_view(final(hidden)@), provider@, id) == (is_hidden(
                hidden_view(old(hidden)@),
                provider@,
                id,
            ) && !string_views(models@).contains(id)),
        visible ==> (is_listed(hidden_view(final(hidden)@), provider@) <==> exists|id: Seq<char>|
            is_hidden(hidden_view(final(hidden)@), provider@, id)),
        !visible ==> forall|id: Seq<char>|
            #[trigger] is_hidden(hidden_view(final(hidden)@), provider@, id) == (is_hidden(
                hidden_view(old(hidden)@),
                provider@,
                id,
            ) || string_views(models@).contains(id)),
        !visible ==> is_listed(hidden_view(final(hidden)@), provider@),
        forall|q: Seq<char>, id: Seq<char>|
            #[trigger] is_hidden(hidden_view(final(hidden)@), q, id) == hidden_after(
                hidden_view(old(hidden)@),
                provider@,
                string_views(models@),
                visible,
                q,
                id,
            ),
{
    let p = provider.to_owned();
    let ghost old_view = hidden_view(hidden@);
    let mut out: Vec<(String, Vec<String>)> = Vec::new();
    let mut found = false;
    let mut i: usize = 0;
    assert(hidden_view(out@) =~= Seq::<(Seq<char>, Seq<Seq<char>>)>::empty());
    assert(old_view.take(0) =~= Seq::<(Seq<char>, Seq<Seq<char>>)>::empty());
    while i < hidden.len()
        invariant
            i <= hidden@.len(),
            p@ == provider@,
            old_view == hidden_view(hidden@),
            forall|q: Seq<char>|
                q != p@ ==> #[trigger] is_listed(hidden_view(out@), q) == is_listed(old_view.take(i as int), q),
            forall|q: Seq<char>, id: Seq<char>|
                q != p@ ==> #[trigger] is_hidden(hidden_view(out@), q, id) == is_hidden(old_view.take(i as int), q, id),
            visible ==> forall|id: Seq<char>|
                #[trigger] is_hidden(hidden_view(out@), p@, id) == (is_hidden(old_view.take(i as int), p@, id)
                    && !string_views(models@).contains(id)),
            visible ==> forall|k: int|
                0 <= k < out@.len() && (#[trigger] hidden_view(out@)[k]).0 == p@ ==> hidden_view(out@)[k].1.len() > 0,
            !visible ==> found == is_listed(old_view.take(i as int), p@),
            !visible ==> is_listed(hidden_view(out@), p@) == found,
            !visible && found ==> forall|id: Seq<char>|
                #[trigger] is_hidden(hidden_view(out@), p@, id) == (is_hidden(old_view.take(i as int), p@, id)
                    || string_views(models@).contains(id)),
            !visible && !found ==> forall|id: Seq<char>|
                !(#[trigger] is_hidden(hidden_view(out@), p@, id)),
        decreases hidden@.len() - i,
    {
        let ghost before = hidden_view(out@);
        let ghost prefix = old_view.take(i as int);
        let ghost e = old_view[i as int];
        assert(old_view.take(i + 1) =~= prefix.push(e));
        proof {
            lemma_store_push(prefix, e);
        }
        let entry = &hidden[i];
        let mine = entry.0 == p;
        assert(e.0 == entry.0@);
        assert(mine == (e.0 == p@));
        if !mine {
            let ids = copy_strings(&entry.1);
            out.push((entry.0.clone(), ids));
            assert(hidden_view(out@) =~= before.push(e));
            proof {
                lemma_store_push(before, e);
                assert forall|k: int| visible && 0 <= k < out@.len() && (#[trigger] hidden_view(out@)[k]).0 == p@ implies hidden_view(out@)[k].1.len() > 0 by {
                    if k < before.len() {
                        assert(before[k] == hidden_view(out@)[k]);
                    }
                }
            }
        } else if visible {
            let kept = ids_without(&entry.1, models);
            if kept.len() > 0 {
                let ghost ke = (p@, string_views(kept@));
                out.push((p.clone(), kept));
                assert(hidden_view(out@) =~= before.push(ke));
                proof {
                    lemma_store_push(before, ke);
                    assert forall|k: int| 0 <= k < out@.len() && (#[trigger] hidden_view(out@)[k]).0 == p@ implies hidden_view(out@)[k].1.len() > 0 by {
                        if k < before.len() {
                            assert(before[k] == hidden_view(out@)[k]);
                        }
                    }
                }
            } else {
                proof {
                    assert forall|id: Seq<char>| !(e.1.contains(id) && !string_views(models@).contains(id)) by {
                        if e.1.contains(id) && !string_views(models@).contains(id) {
                            assert(string_views(kept@).contains(id));
                        }
                    }
                }
            }
        } else if !found {
            let ids = ids_with(&entry.1, models);
            let ghost ie = (p@, string_views(ids@));
            out.push((p.clone(), ids));
            found = true;
            assert(hidden_view(out@) =~= before.push(ie));
            proof {
                lemma_store_push(before, ie);
                assert forall|id: Seq<char>| ie.1.contains(id) <==> (e.1.contains(id) || string_views(models@).contains(id)) by {
                    let a = e.1;
                    let b = string_views(models@);
                    if ie.1.contains(id) {
                        let k = choose|k: int| 0 <= k < ie.1.len() && ie.1[k] == id;
                        if k < a.len() {
                            assert(a[k] == id);
                        } else {
                            assert(b[k - a.len()] == id);
                        }
                    }
                    if a.contains(id) {
                        let k = choose|k: int| 0 <= k < a.len() && a[k] == id;
                        assert(ie.1[k] == id);
                    }
                    if b.contains(id) {
                        let k = choose|k: int| 0 <= k < b.len() && b[k] == id;
                        assert(ie.1[k + a.len()] == id);
                    }
                }
                assert forall|id: Seq<char>| !is_hidden(prefix, p@, id) by {
                    if is_hidden(prefix, p@, id) {
                        let k = choose|k: int| 0 <= k < prefix.len() && (#[trigger] prefix[k]).0 == p@ && prefix[k].1.contains(id);
                        assert(is_listed(prefix, p@));
                    }
                }
            }
        } else {
            let ids = copy_strings(&entry.1);
            out.push((p.clone(), ids));
            assert(hidden_view(out@) =~= before.push(e));
            proof {
                lemma_store_push(before, e);
            }
        }
        i = i + 1;
    }
    if !visible && !found {
        let ghost before = hidden_view(out@);
        let ids = copy_strings(models);
        let ghost ie = (p@, string_views(ids@));
        out.push((p, ids));
        assert(hidden_view(out@) =~= before.push(ie));
        proof {
            lemma_store_push(before, ie);
        }
    }
    proof {
        assert(old_view.take(old_view.len() as int) =~= old_view);
        if visible {
            let nv = hidden_view(out@);
            if is_listed(nv, provider@) {
                let k = choose|k: int| 0 <= k < nv.len() && (#[trigger] nv[k]).0 == provider@;
                assert(nv[k].1.len() > 0);
                assert(nv[k].1.contains(nv[k].1[0]));
                assert(is_hidden(nv, provider@, nv[k].1[0]));
            }
        }
    }
    *hidden = out;
}


/// Whether model `id` of provider `q` is hidden after showing (`visible`)
/// or hiding the models `models` of provider `p` in the store `v`.
pub open spec fn hidden_after(
    v: HiddenView,
    p: Seq<char>,
    models: Seq<Seq<char>>,
    visible: bool,
    q: Seq<char>,
    id: Seq<char>,
) -> bool {
    if q != p {
        is_hidden(v, q, id)
    } else if visible {
        is_hidden(v, p, id) && !models.contains(id)
    } else {
        is_hidden(v, p, id) || models.contains(id)
    }
}

/// Hiding models and then showing them again leaves none of them hidden
/// and every other model as it was; showing models and then hiding them
/// again leaves all of them hidden and every other model as it was.
pub proof fn lemma_hide_then_show(
    v0: HiddenView,
    v1: HiddenView,
    v2: HiddenView,
    p: Seq<char>,
    models: Seq<Seq<char>>,
    first_visible: bool,
)
    requires
        forall|q: Seq<char>, id: Seq<char>|
            #[trigger] is_hidden(v1, q, id) == hidden_after(v0, p, models, first_visible, q, id),
        forall|q: Seq<char>, id: Seq<char>|
            #[trigger] is_hidden(v2, q, id) == hidden_after(v1, p, models, !first_visible, q, id),
    ensures
        forall|q: Seq<char>, id: Seq<char>|
            #[trigger] is_hidden(v2, q, id) == if q == p && models.contains(id) {
                first_visible
            } else {
                is_hidden(v0, q, id)
            },
{
    assert forall|q: Seq<char>, id: Seq<char>|
        #[trigger] is_hidden(v2, q, id) == if q == p && models.contains(id) {
            first_visible
        } else {
            is_hidden(v0, q, id)
        } by {
        assert(is_hidden(v1, q, id) == hidden_after(v0, p, models, first_visible, q, id));
    }
}

} // verus!
