//! Display helpers of the onboarding wizard.
use vstd::prelude::*;
use vstd::string::StringSliceAdditionalSpecFns;

verus! {

/// The number of bytes of the UTF-8 encoding of `c`.
pub open spec fn utf8_width(c: char) -> nat {
    let u = c as u32;
    if u <= 0x7F {
        1
    } else if u <= 0x7FF {
        2
    } else if u <= 0xFFFF {
        3
    } else {
        4
    }
}

/// The number of bytes of the UTF-8 encoding of `s`.
pub open spec fn utf8_len(s: Seq<char>) -> nat
    decreases s.len(),
{
    if s.len() == 0 {
        0
    } else {
        utf8_width(s[0]) + utf8_len(s.drop_first())
    }
}

/// Whether byte offset `b` of the UTF-8 encoding of `s` falls between two
/// characters (`str::is_char_boundary`).
pub open spec fn is_boundary(s: Seq<char>, b: int) -> bool {
    exists|k: int| 0 <= k <= s.len() && #[trigger] utf8_len(s.take(k)) == b
}

/// The number of characters before byte offset `b` of `s`.
pub open spec fn chars_before(s: Seq<char>, b: int) -> int {
    choose|k: int| 0 <= k <= s.len() && #[trigger] utf8_len(s.take(k)) == b
}

/// How an API key is shown in the "connected" status: a key longer than
/// eight bytes shows its first six bytes, `…` and its last four bytes; any
/// other key shows four dots.
pub open spec fn masked(key: Seq<char>) -> Seq<char> {
    let n = utf8_len(key);
    if n > 8 {
        key.take(chars_before(key, 6)) + seq!['…'] + key.skip(chars_before(key, n - 4))
    } else {
        "••••"@
    }
}

proof fn lemma_utf8_len_append(a: Seq<char>, b: Seq<char>)
    ensures
        utf8_len(a + b) == utf8_len(a) + utf8_len(b),
    decreases a.len(),
{
    if a.len() > 0 {
        assert((a + b).drop_first() =~= a.drop_first() + b);
        lemma_utf8_len_append(a.drop_first(), b);
    } else {
        assert(a + b =~= b);
    }
}

proof fn lemma_prefix_step(s: Seq<char>, k: int)
    requires
        0 <= k < s.len(),
    ensures
        utf8_len(s.take(k + 1)) == utf8_len(s.take(k)) + utf8_width(s[k]),
{
    let one = seq![s[k]];
    assert(s.take(k + 1) =~= s.take(k) + one);
    lemma_utf8_len_append(s.take(k), one);
    assert(one.drop_first() =~= Seq::<char>::empty());
    assert(utf8_len(one.drop_first()) == 0);
    assert(utf8_len(one) == utf8_width(one[0]) + utf8_len(one.drop_first()));
}

proof fn lemma_prefix_strict(s: Seq<char>, i: int, j: int)
    requires
        0 <= i < j <= s.len(),
    ensures
        utf8_len(s.take(i)) < utf8_len(s.take(j)),
    decreases j - i,
{
    lemma_prefix_step(s, j - 1);
    if i < j - 1 {
        lemma_prefix_strict(s, i, j - 1);
    }
}

proof fn lemma_chars_before(s: Seq<char>, b: int, k: int)
    requires
        0 <= k <= s.len(),
        utf8_len(s.take(k)) == b,
    ensures
        chars_before(s, b) == k,
{
    let c = chars_before(s, b);
    if c != k {
        if c < k {
            lemma_prefix_strict(s, c, k);
        } else {
            lemma_prefix_strict(s, k, c);
        }
    }
}

fn width_of(c: char) -> (w: usize)
    ensures
        w == utf8_width(c),
{
    let u = c as u32;
    if u <= 0x7F {
        1
    } else if u <= 0x7FF {
        2
    } else if u <= 0xFFFF {
        3
    } else {
        4
    }
}

/// The number of characters of `v` before byte offset `b`, which must fall
/// between two characters.
fn char_index_at(v: &Vec<char>, b: usize) -> (k: usize)
    requires
        is_boundary(v@, b as int),
    ensures
        k <= v@.len(),
        k == chars_before(v@, b as int),
{
    let ghost target = choose|k: int| 0 <= k <= v@.len() && #[trigger] utf8_len(v@.take(k)) == b;
    let vlen = v.len();
    let mut k: usize = 0;
    let mut off: usize = 0;
    assert(v@.take(0) =~= Seq::<char>::empty());
    while off < b
        invariant
            k <= v@.len(),
            0 <= target <= v@.len(),
            utf8_len(v@.take(target)) == b,
            off == utf8_len(v@.take(k as int)),
            off <= b,
            k <= target,
            vlen == v@.len(),
        decreases b - off,
    {
        proof {
            if k == target {
                assert(false);
            }
            lemma_prefix_step(v@, k as int);
            if k + 1 < target {
                lemma_prefix_strict(v@, k + 1, target);
            }
        }
        off = off + width_of(v[k]);
        k = k + 1;
    }
    proof {
        if k < target {
            lemma_prefix_strict(v@, k as int, target);
        }
        lemma_chars_before(v@, b as int, k as int);
    }
    k
}

proof fn lemma_encode_len(s: Seq<char>)
    ensures
        vstd::utf8::encode_utf8(s).len() == utf8_len(s),
    decreases s.len(),
{
    if s.len() > 0 {
        lemma_encode_len(s.drop_first());
        let c = s[0];
        let u = c as u32;
        vstd::utf8::char_is_scalar(c);
        assert(vstd::utf8::encode_scalar(u).len() == utf8_width(s[0]));
    }
}

/// A key longer than eight bytes is shown as a piece of it that starts it
/// and is six bytes long, `…`, and a piece that ends it and is four bytes
/// long.
pub proof fn lemma_mask_shows_key_ends(key: Seq<char>)
    requires
        utf8_len(key) > 8,
        is_boundary(key, 6),
        is_boundary(key, utf8_len(key) - 4),
    ensures
        exists|a: Seq<char>, b: Seq<char>|
            #![trigger utf8_len(a), utf8_len(b)]
            {
                &&& masked(key) == a + seq!['…'] + b
                &&& a.len() <= key.len()
                &&& b.len() <= key.len()
                &&& key.take(a.len() as int) == a
                &&& key.skip(key.len() - b.len()) == b
                &&& utf8_len(a) == 6
                &&& utf8_len(b) == 4
            },
{
    let n = utf8_len(key);
    let k1 = chars_before(key, 6);
    let k2 = chars_before(key, n - 4);
    let a = key.take(k1);
    let b = key.skip(k2);
    assert(key.take(k2) + b =~= key);
    lemma_utf8_len_append(key.take(k2), b);
    assert(key.take(a.len() as int) == a);
    assert(key.skip(key.len() - b.len()) =~= b);
    assert(masked(key) == a + seq!['…'] + b);
    assert(utf8_len(a) == 6 && utf8_len(b) == 4);
}

/// A key of at most eight bytes is shown as four dots, whatever it holds.
pub proof fn lemma_short_key_fully_hidden(key: Seq<char>, other: Seq<char>)
    requires
        utf8_len(key) <= 8,
        utf8_len(other) <= 8,
    ensures
        masked(key) == masked(other),
        masked(key) == seq!['•', '•', '•', '•'],
{
    reveal_strlit("••••");
}

/// Masks an API key for display: keys longer than eight bytes show their
/// first six and last four bytes around `…`, shorter keys show `••••`.
/// Both cut points must fall between two characters, as `str` slicing
/// demands.
pub fn mask_key(key: &str) -> (r: String)
    requires
        utf8_len(key@) > 8 ==> is_boundary(key@, 6) && is_boundary(key@, utf8_len(key@) - 4),
    ensures
        r@ == masked(key@),
        utf8_len(key@) > 8 ==> exists|a: Seq<char>, b: Seq<char>|
            #![trigger utf8_len(a), utf8_len(b)]
            {
                &&& r@ == a + seq!['…'] + b
                &&& a.len() <= key@.len()
                &&& b.len() <= key@.len()
                &&& key@.take(a.len() as int) == a
                &&& key@.skip(key@.len() - b.len()) == b
                &&& utf8_len(a) == 6
                &&& utf8_len(b) == 4
            },
        utf8_len(key@) <= 8 ==> r@ == seq!['•', '•', '•', '•'],
{
    proof {
        lemma_encode_len(key@);
        if utf8_len(key@) > 8 {
            lemma_mask_shows_key_ends(key@);
        } else {
            lemma_short_key_fully_hidden(key@, key@);
        }
    }
    let n = key.as_bytes().len();
    assert(key.spec_bytes() == vstd::utf8::encode_utf8(key@));
    assert(n == utf8_len(key@));
    if n > 8 {
        let v = crate::chars::chars_of(key);
        let head = char_index_at(&v, 6);
        let tail = char_index_at(&v, n - 4);
        let mut out = String::new();
        let mut i: usize = 0;
        while i < head
            invariant
                i <= head <= v@.len(),
                out@ == v@.take(i as int),
            decreases head - i,
        {
            crate::chars::push_char(&mut out, v[i]);
            assert(v@.take(i + 1) =~= v@.take(i as int).push(v@[i as int]));
            i = i + 1;
        }
        crate::chars::push_char(&mut out, '…');
        let mut j: usize = tail;
        while j < v.len()
            invariant
                tail <= j <= v@.len(),
                out@ == v@.take(head as int) + seq!['…'] + v@.subrange(tail as int, j as int),
            decreases v@.len() - j,
        {
            crate::chars::push_char(&mut out, v[j]);
            assert(v@.subrange(tail as int, j + 1) =~= v@.subrange(tail as int, j as int).push(v@[j as int]));
            j = j + 1;
        }
        assert(v@.subrange(tail as int, v@.len() as int) =~= v@.skip(tail as int));
        out
    } else {
        "••••".to_owned()
    }
}


/// The status line of a provider row: "Not connected" without a
/// connection; for a local provider "Connected · Local", followed by
/// " · " and the base URL (the connection's own, else the provider's
/// default `api`) when that URL is not empty; for any other provider
/// "Connected · " and the masked API key.
pub open spec fn status_text(
    connection: Option<(Seq<char>, Option<Seq<char>>)>,
    is_local: bool,
    api: Seq<char>,
) -> Seq<char> {
    match connection {
        None => "Not connected"@,
        Some((key, base_url)) => if is_local {
            let base = match base_url {
                Some(b) => b,
                None => api,
            };
            if base.len() == 0 {
                "Connected · Local"@
            } else {
                "Connected · Local · "@ + base
            }
        } else {
            "Connected · "@ + masked(key)
        },
    }
}

/// The view of a connection: its API key and its base URL, if set.
pub open spec fn connection_view(c: Option<(String, Option<String>)>) -> Option<(Seq<char>, Option<Seq<char>>)> {
    match c {
        None => None,
        Some((key, base_url)) => Some((
            key@,
            match base_url {
                Some(b) => Some(b@),
                None => None,
            },
        )),
    }
}

/// The status line shown for a provider with the connection `connection`
/// (its API key and base URL), see `status_text`. `is_local` tells whether
/// the provider runs locally, `api` is its default base URL.
pub fn connection_status(connection: &Option<(String, Option<String>)>, is_local: bool, api: &str) -> (r: String)
    requires
        !is_local ==> match connection_view(*connection) {
            Some((key, _)) => utf8_len(key) > 8 ==> is_boundary(key, 6) && is_boundary(key, utf8_len(key) - 4),
            None => true,
        },
    ensures
        r@ == status_text(connection_view(*connection), is_local, api@),
{
    match connection {
        None => "Not connected".to_owned(),
        Some((key, base_url)) => {
            if is_local {
                let base: &str = match base_url {
                    Some(b) => b.as_str(),
                    None => api,
                };
                if base.is_empty() {
                    "Connected · Local".to_owned()
                } else {
                    let mut out = "Connected · Local · ".to_owned();
                    crate::chars::push_chars(&mut out, base);
                    out
                }
            } else {
                let mut out = "Connected · ".to_owned();
                let m = mask_key(key.as_str());
                crate::chars::push_chars(&mut out, m.as_str());
                out
            }
        },
    }
}

} // verus!

verus! {

/// The ids of `ids` that pass: listed in `within` (when given) and listed
/// in neither `without` nor `without_too`; in their order.
pub open spec fn kept_ids(
    ids: Seq<Seq<char>>,
    within: Option<Seq<Seq<char>>>,
    without: Seq<Seq<char>>,
    without_too: Seq<Seq<char>>,
) -> Seq<Seq<char>>
    decreases ids.len(),
{
    if ids.len() == 0 {
        seq![]
    } else {
        let rest = kept_ids(ids.drop_last(), within, without, without_too);
        let id = ids.last();
        let inside = match within {
            Some(w) => w.contains(id),
            None => true,
        };
        if inside && !without.contains(id) && !without_too.contains(id) {
            rest.push(id)
        } else {
            rest
        }
    }
}

fn listed(v: &Vec<String>, s: &String) -> (r: bool)
    ensures
        r == crate::manage_models::string_views(v@).contains(s@),
{
    let mut i: usize = 0;
    while i < v.len()
        invariant
            i <= v@.len(),
            forall|k: int| 0 <= k < i ==> crate::manage_models::string_views(v@)[k] != s@,
        decreases v@.len() - i,
    {
        if v[i] == *s {
            assert(crate::manage_models::string_views(v@)[i as int] == s@);
            return true;
        }
        i = i + 1;
    }
    false
}

fn keep(
    ids: &Vec<String>,
    within: Option<&Vec<String>>,
    without: &Vec<String>,
    without_too: &Vec<String>,
) -> (r: Vec<String>)
    ensures
        crate::manage_models::string_views(r@) == kept_ids(
            crate::manage_models::string_views(ids@),
            match within {
                Some(w) => Some(crate::manage_models::string_views(w@)),
                None => None,
            },
            crate::manage_models::string_views(without@),
            crate::manage_models::string_views(without_too@),
        ),
{
    let ghost views = crate::manage_models::string_views(ids@);
    let ghost w = match within {
        Some(w) => Some(crate::manage_models::string_views(w@)),
        None => None,
    };
    let mut out: Vec<String> = Vec::new();
    let mut i: usize = 0;
    while i < ids.len()
        invariant
            i <= ids@.len(),
            views == crate::manage_models::string_views(ids@),
            w == match within {
                Some(w) => Some(crate::manage_models::string_views(w@)),
                None => None,
            },
            crate::manage_models::string_views(out@) == kept_ids(
                views.take(i as int),
                w,
                crate::manage_models::string_views(without@),
                crate::manage_models::string_views(without_too@),
            ),
        decreases ids@.len() - i,
    {
        assert(views.take(i + 1).drop_last() =~= views.take(i as int));
        let id = &ids[i];
        let inside = match within {
            Some(list) => listed(list, id),
            None => true,
        };
        if inside && !listed(without, id) && !listed(without_too, id) {
            let ghost before = out@;
            out.push(id.clone());
            assert(crate::manage_models::string_views(out@) =~= crate::manage_models::string_views(before).push(id@));
        }
        i = i + 1;
    }
    assert(views.take(ids@.len() as int) =~= views);
    out
}

/// The provider lists of the translation step, as ids:
/// - connected: the supported providers, then the custom endpoints, that
///   have a connection;
/// - recommended: the recommended providers that have no connection and
///   are in the provider catalog;
/// - available: the supported providers with no connection that are not
///   recommended, then the custom endpoints with no connection.
/// Each list keeps the order of the lists it is drawn from.
pub fn partition_providers(
    supported: &Vec<String>,
    recommended: &Vec<String>,
    in_catalog: &Vec<String>,
    custom: &Vec<String>,
    connected: &Vec<String>,
) -> (r: (Vec<String>, Vec<String>, Vec<String>))
    ensures
        ({
            let sv = crate::manage_models::string_views(supported@);
            let rv = crate::manage_models::string_views(recommended@);
            let catv = crate::manage_models::string_views(in_catalog@);
            let cv = crate::manage_models::string_views(custom@);
            let conn = crate::manage_models::string_views(connected@);
            let none = Seq::<Seq<char>>::empty();
            &&& crate::manage_models::string_views(r.0@) == kept_ids(sv, Some(conn), none, none)
                + kept_ids(cv, Some(conn), none, none)
            &&& crate::manage_models::string_views(r.1@) == kept_ids(rv, Some(catv), conn, none)
            &&& crate::manage_models::string_views(r.2@) == kept_ids(sv, None, conn, rv)
                + kept_ids(cv, None, conn, none)
        }),
{
    let nothing: Vec<String> = Vec::new();
    assert(crate::manage_models::string_views(nothing@) =~= Seq::<Seq<char>>::empty());
    let mut connected_ids = keep(supported, Some(connected), &nothing, &nothing);
    let mut connected_custom = keep(custom, Some(connected), &nothing, &nothing);
    let ghost a = connected_ids@;
    let ghost b = connected_custom@;
    connected_ids.append(&mut connected_custom);
    assert(crate::manage_models::string_views(connected_ids@) =~= crate::manage_models::string_views(a) + crate::manage_models::string_views(b));
    let recommended_ids = keep(recommended, Some(in_catalog), connected, &nothing);
    let mut available = keep(supported, None, connected, recommended);
    let mut available_custom = keep(custom, None, connected, &nothing);
    let ghost c = available@;
    let ghost d = available_custom@;
    available.append(&mut available_custom);
    assert(crate::manage_models::string_views(available@) =~= crate::manage_models::string_views(c) + crate::manage_models::string_views(d));
    (connected_ids, recommended_ids, available)
}

} // verus!

verus! {

/// Where the download of one required model stands.
#[derive(Debug, Clone, Copy, PartialEq, Eq, Structural)]
pub enum DownloadState {
    NotStarted,
    Downloading,
    Done,
    Failed,
}

/// What the models step offers below the download list.
#[derive(Debug, Clone, Copy, PartialEq, Eq, Structural)]
pub enum DownloadAction {
    /// Every model is downloaded: "All models ready".
    AllReady,
    /// Downloads are running: a progress note, no button.
    InProgress,
    /// Some download failed: a "Retry failed" button.
    RetryFailed,
    /// Nothing failed yet: a "Download all models" button.
    DownloadAll,
}

/// Whether every model is downloaded.
pub open spec fn all_done(states: Seq<DownloadState>) -> bool {
    forall|i: int| 0 <= i < states.len() ==> #[trigger] states[i] == DownloadState::Done
}

/// Whether some download failed.
pub open spec fn any_failed(states: Seq<DownloadState>) -> bool {
    exists|i: int| 0 <= i < states.len() && #[trigger] states[i] == DownloadState::Failed
}

/// The models step's action for the download states `states`, while
/// downloads are (`downloading`) or are not running.
pub open spec fn action_for(states: Seq<DownloadState>, downloading: bool) -> DownloadAction {
    if all_done(states) {
        DownloadAction::AllReady
    } else if downloading {
        DownloadAction::InProgress
    } else if any_failed(states) {
        DownloadAction::RetryFailed
    } else {
        DownloadAction::DownloadAll
    }
}

/// What the models step offers, case by case: all ready exactly when every
/// model is done; otherwise the progress note while downloads run; otherwise
/// the retry button exactly when some download failed, whatever the other
/// states are; otherwise the download-all button.
pub proof fn lemma_download_action_cases(states: Seq<DownloadState>, downloading: bool)
    ensures
        (forall|i: int| 0 <= i < states.len() ==> #[trigger] states[i] == DownloadState::Done)
            <==> action_for(states, downloading) == DownloadAction::AllReady,
        (exists|i: int| 0 <= i < states.len() && #[trigger] states[i] != DownloadState::Done) && downloading
            ==> action_for(states, downloading) == DownloadAction::InProgress,
        (exists|i: int| 0 <= i < states.len() && #[trigger] states[i] != DownloadState::Done) && !downloading
            ==> (action_for(states, downloading) == DownloadAction::RetryFailed <==> exists|i: int|
            0 <= i < states.len() && #[trigger] states[i] == DownloadState::Failed),
        (exists|i: int| 0 <= i < states.len() && #[trigger] states[i] != DownloadState::Done) && !downloading
            && (forall|i: int| 0 <= i < states.len() ==> #[trigger] states[i] != DownloadState::Failed)
            ==> action_for(states, downloading) == DownloadAction::DownloadAll,
{
    if exists|i: int| 0 <= i < states.len() && #[trigger] states[i] == DownloadState::Failed {
        let i = choose|i: int| 0 <= i < states.len() && #[trigger] states[i] == DownloadState::Failed;
        assert(states[i] != DownloadState::Done);
    }
}

/// Picks what the models step offers: all ready when every model is done,
/// otherwise the progress note while downloading, otherwise a retry button
/// when a download failed, otherwise the download-all button.
pub fn download_action(states: &Vec<DownloadState>, downloading: bool) -> (r: DownloadAction)
    ensures
        r == action_for(states@, downloading),
        (forall|i: int| 0 <= i < states@.len() ==> #[trigger] states@[i] == DownloadState::Done)
            <==> r == DownloadAction::AllReady,
        (exists|i: int| 0 <= i < states@.len() && #[trigger] states@[i] != DownloadState::Done) && downloading
            ==> r == DownloadAction::InProgress,
        (exists|i: int| 0 <= i < states@.len() && #[trigger] states@[i] != DownloadState::Done) && !downloading
            ==> (r == DownloadAction::RetryFailed <==> exists|i: int|
            0 <= i < states@.len() && #[trigger] states@[i] == DownloadState::Failed),
        (exists|i: int| 0 <= i < states@.len() && #[trigger] states@[i] != DownloadState::Done) && !downloading
            && (forall|i: int| 0 <= i < states@.len() ==> #[trigger] states@[i] != DownloadState::Failed)
            ==> r == DownloadAction::DownloadAll,
{
    proof {
        lemma_download_action_cases(states@, downloading);
    }
    let mut done = true;
    let mut failed = false;
    let mut i: usize = 0;
    while i < states.len()
        invariant
            i <= states@.len(),
            done == forall|k: int| 0 <= k < i ==> #[trigger] states@[k] == DownloadState::Done,
            failed == exists|k: int| 0 <= k < i && #[trigger] states@[k] == DownloadState::Failed,
        decreases states@.len() - i,
    {
        let s = states[i];
        if s != DownloadState::Done {
            done = false;
        }
        if s == DownloadState::Failed {
            failed = true;
        }
        proof {
            if !done {
                if s != DownloadState::Done {
                    assert(states@[i as int] != DownloadState::Done);
                }
            }
            if failed && s == DownloadState::Failed {
                assert(states@[i as int] == DownloadState::Failed);
            }
        }
        i = i + 1;
    }
    if done {
        DownloadAction::AllReady
    } else if downloading {
        DownloadAction::InProgress
    } else if failed {
        DownloadAction::RetryFailed
    } else {
        DownloadAction::DownloadAll
    }
}

/// Every id of `kept_ids(ids, within, without, without_too)` comes from
/// `ids`, lies in `within` (when given), and in neither exclusion list.
pub proof fn lemma_kept_ids_members(
    ids: Seq<Seq<char>>,
    within: Option<Seq<Seq<char>>>,
    without: Seq<Seq<char>>,
    without_too: Seq<Seq<char>>,
    x: Seq<char>,
)
    requires
        kept_ids(ids, within, without, without_too).contains(x),
    ensures
        ids.contains(x),
        within matches Some(w) ==> w.contains(x),
        !without.contains(x),
        !without_too.contains(x),
    decreases ids.len(),
{
    let rest = kept_ids(ids.drop_last(), within, without, without_too);
    if ids.len() > 0 {
        let k = choose|k: int| 0 <= k < kept_ids(ids, within, without, without_too).len()
            && kept_ids(ids, within, without, without_too)[k] == x;
        if k < rest.len() && rest[k] == x {
            lemma_kept_ids_members(ids.drop_last(), within, without, without_too, x);
            let j = choose|j: int| 0 <= j < ids.drop_last().len() && ids.drop_last()[j] == x;
            assert(ids[j] == x);
        } else {
            assert(x == ids.last());
            assert(ids[ids.len() - 1] == x);
        }
    }
}

/// A connected provider is never also offered as recommended or available.
pub proof fn lemma_connected_not_offered(
    supported: Seq<Seq<char>>,
    recommended: Seq<Seq<char>>,
    in_catalog: Seq<Seq<char>>,
    custom: Seq<Seq<char>>,
    connected: Seq<Seq<char>>,
    x: Seq<char>,
)
    requires
        connected.contains(x),
    ensures
        !kept_ids(recommended, Some(in_catalog), connected, Seq::empty()).contains(x),
        !(kept_ids(supported, None, connected, recommended) + kept_ids(
            custom,
            None,
            connected,
            Seq::empty(),
        )).contains(x),
{
    let none = Seq::<Seq<char>>::empty();
    if kept_ids(recommended, Some(in_catalog), connected, none).contains(x) {
        lemma_kept_ids_members(recommended, Some(in_catalog), connected, none, x);
    }
    let a = kept_ids(supported, None, connected, recommended);
    let b = kept_ids(custom, None, connected, none);
    if (a + b).contains(x) {
        let k = choose|k: int| 0 <= k < (a + b).len() && (a + b)[k] == x;
        if k < a.len() {
            assert(a[k] == x);
            lemma_kept_ids_members(supported, None, connected, recommended, x);
        } else {
            assert(b[k - a.len()] == x);
            lemma_kept_ids_members(custom, None, connected, none, x);
        }
    }
}

/// A recommended provider is not listed again among the available
/// supported providers.
pub proof fn lemma_recommended_not_repeated(
    supported: Seq<Seq<char>>,
    recommended: Seq<Seq<char>>,
    connected: Seq<Seq<char>>,
    x: Seq<char>,
)
    requires
        recommended.contains(x),
    ensures
        !kept_ids(supported, None, connected, recommended).contains(x),
{
    if kept_ids(supported, None, connected, recommended).contains(x) {
        lemma_kept_ids_members(supported, None, connected, recommended, x);
    }
}

/// The setup wizard's navigation at one step: the steps are welcome (0),
/// models (1), preferences (2), translation (3) and done (4).
pub struct WizardNav {
    /// Back is offered on the models, preferences and translation steps.
    pub can_back: bool,
    /// The primary button is enabled, except on the models step until every
    /// model is downloaded.
    pub can_next: bool,
    pub next_label: String,
    /// The primary button finishes the wizard (done step) instead of moving on.
    pub finishes: bool,
    /// "Skip for now" is offered (translation step).
    pub offers_skip: bool,
    /// "Download all models to continue" is shown (models step, not all done).
    pub download_hint: bool,
    /// The step counter, "N/5".
    pub progress: String,
    /// For each of the five step dots: whether it is the current step and
    /// whether its step is behind.
    pub dots: Vec<(bool, bool)>,
}

/// The label of the wizard's primary button at `step`.
pub open spec fn next_label_text(step: u8) -> Seq<char> {
    if step == 0 {
        "Get started"@
    } else if step == 4 {
        "Finish"@
    } else {
        "Next"@
    }
}

/// The wizard's navigation at `step`, with every model downloaded
/// (`all_done`) or not.
pub fn wizard_nav(step: u8, all_done: bool) -> (r: WizardNav)
    ensures
        r.can_back == (0 < step < 4),
        r.can_next == (step != 1 || all_done),
        r.next_label@ == next_label_text(step),
        r.finishes == (step == 4),
        r.offers_skip == (step == 3),
        r.download_hint == (step == 1 && !all_done),
        r.progress@ == crate::scale::decimal((step + 1) as nat) + "/5"@,
        r.dots@.len() == 5,
        forall|i: int| 0 <= i < 5 ==> (#[trigger] r.dots@[i]) == (i == step, i < step),
{
    let next_label = if step == 0 {
        "Get started".to_owned()
    } else if step == 4 {
        "Finish".to_owned()
    } else {
        "Next".to_owned()
    };
    let mut progress = String::new();
    crate::scale::push_decimal(&mut progress, step as usize + 1);
    crate::chars::push_chars(&mut progress, "/5");
    let mut dots: Vec<(bool, bool)> = Vec::new();
    let mut i: usize = 0;
    while i < 5
        invariant
            i <= 5,
            dots@.len() == i,
            forall|k: int| 0 <= k < i ==> (#[trigger] dots@[k]) == (k == step, k < step),
        decreases 5 - i,
    {
        dots.push((i == step as usize, i < step as usize));
        i = i + 1;
    }
    WizardNav {
        can_back: step > 0 && step < 4,
        can_next: step != 1 || all_done,
        next_label,
        finishes: step == 4,
        offers_skip: step == 3,
        download_hint: step == 1 && !all_done,
        progress,
        dots,
    }
}

} // verus!
