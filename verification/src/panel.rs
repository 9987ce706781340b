//! Helpers shared by the side panels.
use vstd::prelude::*;

verus! {

/// Whether `c` separates path components (`\` or `/`).
pub open spec fn is_path_separator(c: char) -> bool {
    c == '\\' || c == '/'
}

/// The last component of `path`: what follows its last separator, or the
/// whole path when it has none.
pub open spec fn last_component(path: Seq<char>) -> Seq<char>
    decreases path.len(),
{
    if path.len() == 0 {
        path
    } else if is_path_separator(path.last()) {
        Seq::empty()
    } else {
        last_component(path.drop_last()).push(path.last())
    }
}

proof fn lemma_last_component(path: Seq<char>, k: int)
    requires
        0 <= k <= path.len(),
        k == 0 || is_path_separator(path[k - 1]),
        forall|i: int| k <= i < path.len() ==> !is_path_separator(#[trigger] path[i]),
    ensures
        last_component(path) == path.skip(k),
    decreases path.len(),
{
    if path.len() == k {
        if k > 0 {
            assert(is_path_separator(path.last()));
        }
        assert(path.skip(k) =~= Seq::<char>::empty());
    } else {
        lemma_last_component(path.drop_last(), k);
        assert(path.drop_last().skip(k).push(path.last()) =~= path.skip(k));
    }
}

/// The file name of `path`: its last `\`- or `/`-separated component.
pub fn file_name(path: &str) -> (r: String)
    ensures
        r@ == last_component(path@),
{
    let v = crate::chars::chars_of(path);
    let mut k = v.len();
    while k > 0 && !(v[k - 1] == '\\' || v[k - 1] == '/')
        invariant
            k <= v@.len(),
            forall|i: int| k <= i < v@.len() ==> !is_path_separator(#[trigger] v@[i]),
        decreases k,
    {
        k = k - 1;
    }
    proof {
        lemma_last_component(v@, k as int);
    }
    let mut out = String::new();
    let mut j = k;
    while j < v.len()
        invariant
            k <= j <= v@.len(),
            out@ == v@.subrange(k as int, j as int),
        decreases v@.len() - j,
    {
        crate::chars::push_char(&mut out, v[j]);
        assert(v@.subrange(k as int, j + 1) =~= v@.subrange(k as int, j as int).push(v@[j as int]));
        j = j + 1;
    }
    assert(v@.subrange(k as int, v@.len() as int) =~= v@.skip(k as int));
    out
}

} // verus!

verus! {

/// The file name is the end of the path and holds no separator.
pub proof fn lemma_file_name_is_separator_free_suffix(path: Seq<char>)
    ensures
        last_component(path).len() <= path.len(),
        last_component(path) == path.skip(path.len() - last_component(path).len()),
        forall|i: int| 0 <= i < last_component(path).len() ==> !is_path_separator(#[trigger] last_component(path)[i]),
    decreases path.len(),
{
    if path.len() > 0 {
        lemma_file_name_is_separator_free_suffix(path.drop_last());
        let c = last_component(path);
        if is_path_separator(path.last()) {
            assert(path.skip(path.len() as int) =~= Seq::<char>::empty());
        } else {
            let p = last_component(path.drop_last());
            assert(c == p.push(path.last()));
            assert(path.drop_last().skip(path.len() - 1 - p.len()).push(path.last()) =~= path.skip(path.len() - c.len()));
        }
    }
}

} // verus!

verus! {

/// Side, in pixels, of the checkerboard image behind transparent swatches.
pub const CHECKER_SIDE: usize = 64;

/// Side, in pixels, of one checkerboard square.
pub const CHECKER_TILE: usize = 8;

/// Whether pixel `(x, y)` of the checkerboard takes the light colour.
pub open spec fn checker_is_light(x: int, y: int) -> bool {
    (x / CHECKER_TILE as int + y / CHECKER_TILE as int) % 2 == 0
}

/// Byte `i` of the checkerboard image: row-major RGBA pixels, light where
/// the square index `x / 8 + y / 8` is even, dark elsewhere.
pub open spec fn checker_byte(light: [u8; 4], dark: [u8; 4], i: int) -> u8 {
    let p = i / 4;
    let x = p % CHECKER_SIDE as int;
    let y = p / CHECKER_SIDE as int;
    if checker_is_light(x, y) {
        light@[i % 4]
    } else {
        dark@[i % 4]
    }
}

/// The RGBA bytes of the 64×64 checkerboard of 8-pixel squares drawn in
/// `light` and `dark`.
pub fn checker_pixels(light: [u8; 4], dark: [u8; 4]) -> (r: Vec<u8>)
    ensures
        r@.len() == CHECKER_SIDE * CHECKER_SIDE * 4,
        forall|i: int| 0 <= i < r@.len() ==> #[trigger] r@[i] == checker_byte(light, dark, i),
{
    let side = CHECKER_SIDE;
    let tile = CHECKER_TILE;
    let mut pixels: Vec<u8> = Vec::new();
    let mut y: usize = 0;
    while y < side
        invariant
            y <= side,
            side == CHECKER_SIDE,
            tile == CHECKER_TILE,
            pixels@.len() == y * side * 4,
            forall|i: int| 0 <= i < pixels@.len() ==> #[trigger] pixels@[i] == checker_byte(light, dark, i),
        decreases side - y,
    {
        let mut x: usize = 0;
        while x < side
            invariant
                x <= side,
                y < side,
                side == CHECKER_SIDE,
                tile == CHECKER_TILE,
                pixels@.len() == (y * side + x) * 4,
                forall|i: int| 0 <= i < pixels@.len() ==> #[trigger] pixels@[i] == checker_byte(light, dark, i),
            decreases side - x,
        {
            let color = if (x / tile + y / tile) % 2 == 0 {
                light
            } else {
                dark
            };
            let base = (y * side + x) * 4;
            let mut c: usize = 0;
            while c < 4
                invariant
                    c <= 4,
                    x < side,
                    y < side,
                    side == CHECKER_SIDE,
                    tile == CHECKER_TILE,
                    base == (y * side + x) * 4,
                    color == if checker_is_light(x as int, y as int) { light } else { dark },
                    pixels@.len() == base + c,
                    forall|i: int| 0 <= i < pixels@.len() ==> #[trigger] pixels@[i] == checker_byte(light, dark, i),
                decreases 4 - c,
            {
                proof {
                    let i = base + c;
                    assert(i / 4 == y * side + x) by (nonlinear_arith)
                        requires i == (y * side + x) * 4 + c, c < 4;
                    assert(i % 4 == c) by (nonlinear_arith)
                        requires i == (y * side + x) * 4 + c, c < 4;
                    assert((y * side + x) % 64 == x) by (nonlinear_arith)
                        requires x < 64, side == 64;
                    assert((y * side + x) / 64 == y) by (nonlinear_arith)
                        requires x < 64, side == 64;
                }
                pixels.push(color[c]);
                c = c + 1;
            }
            x = x + 1;
        }
        y = y + 1;
    }
    pixels
}

/// The inpainting backends offered for backgrounds.
#[derive(Debug, Clone, Copy, PartialEq, Eq, Structural)]
pub enum InpaintBackend {
    Harmonic,
    Telea,
    Lama,
    Aot,
    ShiftMap,
}

/// The value of the "Inpaint Background" split button: its face names the
/// selected backend.
#[derive(Debug, Clone, Copy, PartialEq, Eq, Structural)]
pub struct PanelBackend(pub InpaintBackend);

/// The short name of a backend.
pub open spec fn backend_name(b: InpaintBackend) -> Seq<char> {
    match b {
        InpaintBackend::Harmonic => "Harmonic"@,
        InpaintBackend::Telea => "Telea"@,
        InpaintBackend::Lama => "LaMa"@,
        InpaintBackend::Aot => "AOT-GAN"@,
        InpaintBackend::ShiftMap => "ShiftMap"@,
    }
}

impl PanelBackend {
    /// The button face: `Inpaint Background (<backend>)`.
    pub fn label(&self) -> (r: String)
        ensures
            r@ == "Inpaint Background ("@ + backend_name(self.0) + ")"@,
    {
        let short = match self.0 {
            InpaintBackend::Harmonic => "Harmonic",
            InpaintBackend::Telea => "Telea",
            InpaintBackend::Lama => "LaMa",
            InpaintBackend::Aot => "AOT-GAN",
            InpaintBackend::ShiftMap => "ShiftMap",
        };
        let head = crate::chars::chars_of("Inpaint Background (");
        let name = crate::chars::chars_of(short);
        let tail = crate::chars::chars_of(")");
        proof {
            reveal_strlit(")");
        }
        let mut all: Vec<char> = Vec::new();
        let mut i: usize = 0;
        while i < head.len()
            invariant
                i <= head@.len(),
                all@ == head@.take(i as int),
            decreases head@.len() - i,
        {
            all.push(head[i]);
            assert(head@.take(i + 1) =~= head@.take(i as int).push(head@[i as int]));
            i = i + 1;
        }
        let mut j: usize = 0;
        while j < name.len()
            invariant
                i == head@.len(),
                j <= name@.len(),
                all@ == head@ + name@.take(j as int),
            decreases name@.len() - j,
        {
            all.push(name[j]);
            assert(name@.take(j + 1) =~= name@.take(j as int).push(name@[j as int]));
            j = j + 1;
        }
        all.push(tail[0]);
        assert(head@.take(head@.len() as int) =~= head@);
        assert(name@.take(name@.len() as int) =~= name@);
        assert(all@ =~= head@ + name@ + tail@);
        crate::chars::string_from_chars(&all)
    }
}

} // verus!
