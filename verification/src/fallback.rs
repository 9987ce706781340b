//! CJK script detection and the OS fallback families that cover CJK.
//!
//! Decorative Latin-only fonts cannot show Hangul/Han/Kana; the renderer
//! falls back to an OS CJK family, which typically has only a regular face.
//! Text holding CJK characters therefore drops bold/italic requests, and the
//! boot step preloads the families listed here.
use vstd::prelude::*;

verus! {

/// Families that provide CJK coverage on at least one major OS.
pub open spec fn fallback_families() -> Seq<Seq<char>> {
    seq![
        "Batang"@,
        "Dotum"@,
        "Gulim"@,
        "Malgun Gothic"@,
        "Meiryo"@,
        "MS Gothic"@,
        "MS Mincho"@,
        "MS PGothic"@,
        "Yu Gothic"@,
        "Yu Mincho"@,
        "Apple SD Gothic Neo"@,
        "AppleGothic"@,
        "Hiragino Kaku Gothic Pro"@,
        "Hiragino Kaku Gothic ProN"@,
        "Hiragino Mincho ProN"@,
        "Hiragino Sans"@,
        "Hiragino Sans GB"@,
        "Nanum Gothic"@,
        "Noto Sans CJK JP"@,
        "Noto Sans CJK KR"@,
        "Noto Sans CJK SC"@,
        "Noto Sans JP"@,
        "Noto Sans KR"@,
        "Noto Sans SC"@,
        "Noto Sans CJK"@,
    ]
}

/// The CJK fallback families: Windows, then macOS, then Linux/Noto names,
/// then the generic fontconfig alias.
pub fn cjk_fallback_families() -> (r: Vec<&'static str>)
    ensures
        r@.len() == fallback_families().len(),
        forall|i: int| 0 <= i < r@.len() ==> (#[trigger] r@[i])@ == fallback_families()[i],
{
    let r = vec![
        "Batang",
        "Dotum",
        "Gulim",
        "Malgun Gothic",
        "Meiryo",
        "MS Gothic",
        "MS Mincho",
        "MS PGothic",
        "Yu Gothic",
        "Yu Mincho",
        "Apple SD Gothic Neo",
        "AppleGothic",
        "Hiragino Kaku Gothic Pro",
        "Hiragino Kaku Gothic ProN",
        "Hiragino Mincho ProN",
        "Hiragino Sans",
        "Hiragino Sans GB",
        "Nanum Gothic",
        "Noto Sans CJK JP",
        "Noto Sans CJK KR",
        "Noto Sans CJK SC",
        "Noto Sans JP",
        "Noto Sans KR",
        "Noto Sans SC",
        "Noto Sans CJK",
    ];
    r
}

/// `c` with an ASCII capital letter turned into its small letter.
pub open spec fn ascii_lower(c: char) -> char {
    if 'A' <= c <= 'Z' {
        ((c as u32) + 32) as char
    } else {
        c
    }
}

/// Whether `a` and `b` are equal up to ASCII case (`str::eq_ignore_ascii_case`).
pub open spec fn eq_ignore_ascii_case(a: Seq<char>, b: Seq<char>) -> bool {
    &&& a.len() == b.len()
    &&& forall|i: int| 0 <= i < a.len() ==> ascii_lower(#[trigger] a[i]) == ascii_lower(b[i])
}

fn to_ascii_lower(c: char) -> (r: char)
    ensures
        r == ascii_lower(c),
{
    if 'A' <= c && c <= 'Z' {
        ((c as u8) + 32) as char
    } else {
        c
    }
}

fn chars_eq_ignore_ascii_case(a: &Vec<char>, b: &Vec<char>) -> (r: bool)
    ensures
        r == eq_ignore_ascii_case(a@, b@),
{
    if a.len() != b.len() {
        return false;
    }
    let mut i: usize = 0;
    while i < a.len()
        invariant
            a@.len() == b@.len(),
            i <= a@.len(),
            forall|k: int| 0 <= k < i ==> ascii_lower(#[trigger] a@[k]) == ascii_lower(b@[k]),
        decreases a@.len() - i,
    {
        if to_ascii_lower(a[i]) != to_ascii_lower(b[i]) {
            return false;
        }
        i = i + 1;
    }
    true
}

/// Whether `family` names one of the CJK fallback families, ignoring ASCII case.
pub fn is_cjk_fallback_family(family: &str) -> (r: bool)
    ensures
        r == exists|i: int|
            0 <= i < fallback_families().len() && eq_ignore_ascii_case(
                #[trigger] fallback_families()[i],
                family@,
            ),
{
    let families = cjk_fallback_families();
    let wanted = crate::chars::chars_of(family);
    let mut i: usize = 0;
    while i < families.len()
        invariant
            i <= families@.len(),
            families@.len() == fallback_families().len(),
            forall|k: int| 0 <= k < families@.len() ==> (#[trigger] families@[k])@ == fallback_families()[k],
            wanted@ == family@,
            forall|k: int|
                0 <= k < i ==> !eq_ignore_ascii_case(#[trigger] fallback_families()[k], family@),
        decreases families@.len() - i,
    {
        let name = crate::chars::chars_of(families[i]);
        if chars_eq_ignore_ascii_case(&name, &wanted) {
            return true;
        }
        i = i + 1;
    }
    false
}

/// The code point ranges of Hangul, Kana, Bopomofo, CJK symbols and the CJK
/// ideographs that appear in manhwa/manga.
pub open spec fn is_cjk_spec(c: char) -> bool {
    let u = c as u32;
    ||| 0x1100 <= u <= 0x11FF
    ||| 0x3130 <= u <= 0x318F
    ||| 0xA960 <= u <= 0xA97F
    ||| 0xD7B0 <= u <= 0xD7FF
    ||| 0xAC00 <= u <= 0xD7AF
    ||| 0x3000 <= u <= 0x303F
    ||| 0x3040 <= u <= 0x309F
    ||| 0x30A0 <= u <= 0x30FF
    ||| 0x3100 <= u <= 0x312F
    ||| 0x31A0 <= u <= 0x31BF
    ||| 0x31F0 <= u <= 0x31FF
    ||| 0x3400 <= u <= 0x4DBF
    ||| 0x4E00 <= u <= 0x9FFF
    ||| 0xF900 <= u <= 0xFAFF
    ||| 0xFE30 <= u <= 0xFE4F
    ||| 0xFF00 <= u <= 0xFFEF
    ||| 0x20000 <= u <= 0x2FA1F
}

/// Every Hangul character is CJK: the Hangul Jamo (U+1100–U+11FF),
/// Compatibility Jamo (U+3130–U+318F), Jamo Extended-A (U+A960–U+A97F) and
/// Extended-B (U+D7B0–U+D7FF) blocks and the Hangul Syllables
/// (U+AC00–U+D7AF).
pub proof fn lemma_hangul_is_cjk(c: char)
    requires
        (0x1100 <= c as u32 <= 0x11FF) || (0x3130 <= c as u32 <= 0x318F) || (0xA960 <= c as u32
            <= 0xA97F) || (0xD7B0 <= c as u32 <= 0xD7FF) || (0xAC00 <= c as u32 <= 0xD7AF),
    ensures
        is_cjk_spec(c),
{
}

/// Kana and Bopomofo are CJK: CJK Symbols and Punctuation (U+3000–U+303F),
/// Hiragana (U+3040–U+309F), Katakana (U+30A0–U+30FF), Bopomofo
/// (U+3100–U+312F), Bopomofo Extended (U+31A0–U+31BF) and the Katakana
/// Phonetic Extensions (U+31F0–U+31FF).
pub proof fn lemma_kana_is_cjk(c: char)
    requires
        (0x3000 <= c as u32 <= 0x303F) || (0x3040 <= c as u32 <= 0x309F) || (0x30A0 <= c as u32
            <= 0x30FF) || (0x3100 <= c as u32 <= 0x312F) || (0x31A0 <= c as u32 <= 0x31BF) || (0x31F0
            <= c as u32 <= 0x31FF),
    ensures
        is_cjk_spec(c),
{
}

/// The ideographs and their forms are CJK: CJK Unified Ideographs and
/// Extension A (U+4E00–U+9FFF, U+3400–U+4DBF), the Compatibility
/// Ideographs (U+F900–U+FAFF), Compatibility Forms (U+FE30–U+FE4F),
/// Halfwidth and Fullwidth Forms (U+FF00–U+FFEF) and the supplementary
/// ideographs (U+20000–U+2FA1F).
pub proof fn lemma_ideographs_are_cjk(c: char)
    requires
        (0x4E00 <= c as u32 <= 0x9FFF) || (0x3400 <= c as u32 <= 0x4DBF) || (0xF900 <= c as u32
            <= 0xFAFF) || (0xFE30 <= c as u32 <= 0xFE4F) || (0xFF00 <= c as u32 <= 0xFFEF) || (0x20000
            <= c as u32 <= 0x2FA1F),
    ensures
        is_cjk_spec(c),
{
}

/// Latin letters, digits and ASCII punctuation are not CJK.
pub proof fn lemma_ascii_is_not_cjk(c: char)
    requires
        (c as u32) < 0x80,
    ensures
        !is_cjk_spec(c),
{
}

/// Whether `c` belongs to a CJK / Hangul / Kana block.
pub fn is_cjk(c: char) -> (r: bool)
    ensures
        r == is_cjk_spec(c),
{
    let cp = c as u32;
    // Hangul Jamo, compatibility Jamo, Jamo extended A/B, syllables
    (0x1100 <= cp && cp <= 0x11FF) || (0x3130 <= cp && cp <= 0x318F) || (0xA960 <= cp && cp
        <= 0xA97F) || (0xD7B0 <= cp && cp <= 0xD7FF) || (0xAC00 <= cp && cp <= 0xD7AF)
    // CJK symbols, Hiragana, Katakana, Bopomofo
     || (0x3000 <= cp && cp <= 0x303F) || (0x3040 <= cp && cp <= 0x309F) || (0x30A0 <= cp && cp
        <= 0x30FF) || (0x3100 <= cp && cp <= 0x312F) || (0x31A0 <= cp && cp <= 0x31BF) || (0x31F0
        <= cp && cp <= 0x31FF)
    // CJK unified ideographs (common + extension A), compatibility ideographs
     || (0x3400 <= cp && cp <= 0x4DBF) || (0x4E00 <= cp && cp <= 0x9FFF) || (0xF900 <= cp && cp
        <= 0xFAFF)
    // compatibility forms, halfwidth/fullwidth forms, supplementary ideographs
     || (0xFE30 <= cp && cp <= 0xFE4F) || (0xFF00 <= cp && cp <= 0xFFEF) || (0x20000 <= cp && cp
        <= 0x2FA1F)
}

/// Whether `text` holds at least one CJK character.
pub fn contains_cjk(text: &str) -> (r: bool)
    ensures
        r == exists|i: int| 0 <= i < text@.len() && is_cjk_spec(#[trigger] text@[i]),
{
    let v = crate::chars::chars_of(text);
    let mut i: usize = 0;
    while i < v.len()
        invariant
            i <= v@.len(),
            v@ == text@,
            forall|k: int| 0 <= k < i ==> !is_cjk_spec(#[trigger] v@[k]),
        decreases v@.len() - i,
    {
        if is_cjk(v[i]) {
            return true;
        }
        i = i + 1;
    }
    false
}

} // verus!
