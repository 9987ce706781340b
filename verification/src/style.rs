//! Font face selection for overlay text: the CSS weight scale, matching a
//! requested weight against the faces the font database offers, and the
//! CJK-aware choice of weight and style.
use vstd::prelude::*;

verus! {

/// A named font weight step.
#[derive(Debug, Clone, Copy, PartialEq, Eq, Structural)]
pub enum Weight {
    Thin,
    ExtraLight,
    Light,
    Normal,
    Medium,
    Semibold,
    Bold,
    ExtraBold,
    Black,
}

/// The slant of a font face.
#[derive(Debug, Clone, Copy, PartialEq, Eq, Structural)]
pub enum FontStyle {
    Normal,
    Italic,
    Oblique,
}

/// The width of a font face.
#[derive(Debug, Clone, Copy, PartialEq, Eq, Structural)]
pub enum FontStretch {
    UltraCondensed,
    ExtraCondensed,
    Condensed,
    SemiCondensed,
    Normal,
    SemiExpanded,
    Expanded,
    ExtraExpanded,
    UltraExpanded,
}

/// The CSS number of a weight step (Thin = 100 … Black = 900).
pub open spec fn weight_number(w: Weight) -> u16 {
    match w {
        Weight::Thin => 100,
        Weight::ExtraLight => 200,
        Weight::Light => 300,
        Weight::Normal => 400,
        Weight::Medium => 500,
        Weight::Semibold => 600,
        Weight::Bold => 700,
        Weight::ExtraBold => 800,
        Weight::Black => 900,
    }
}

/// The numeric CSS weight of `weight`.
pub fn weight_value(weight: Weight) -> (r: u16)
    ensures
        r == weight_number(weight),
{
    match weight {
        Weight::Thin => 100,
        Weight::ExtraLight => 200,
        Weight::Light => 300,
        Weight::Normal => 400,
        Weight::Medium => 500,
        Weight::Semibold => 600,
        Weight::Bold => 700,
        Weight::ExtraBold => 800,
        Weight::Black => 900,
    }
}

/// The distance between two weights.
pub open spec fn weight_gap(a: u16, b: u16) -> int {
    if a >= b { a - b } else { b - a }
}

fn abs_diff(a: u16, b: u16) -> (r: u16)
    ensures
        r == weight_gap(a, b),
{
    if a >= b { a - b } else { b - a }
}

/// Whether `w` is a step nearest to `value`, the lighter one on a tie.
pub open spec fn is_nearest_step(value: u16, w: Weight) -> bool {
    forall|o: Weight| {
        ||| weight_gap(value, weight_number(w)) < weight_gap(value, #[trigger] weight_number(o))
        ||| (weight_gap(value, weight_number(w)) == weight_gap(value, weight_number(o))
            && weight_number(w) <= weight_number(o))
    }
}

fn step_at(i: usize) -> (w: Weight)
    requires
        i < 9,
    ensures
        weight_number(w) == 100 * (i + 1),
{
    if i == 0 {
        Weight::Thin
    } else if i == 1 {
        Weight::ExtraLight
    } else if i == 2 {
        Weight::Light
    } else if i == 3 {
        Weight::Normal
    } else if i == 4 {
        Weight::Medium
    } else if i == 5 {
        Weight::Semibold
    } else if i == 6 {
        Weight::Bold
    } else if i == 7 {
        Weight::ExtraBold
    } else {
        Weight::Black
    }
}

/// The named weight step nearest to a raw weight value; between two
/// equally near steps the lighter one.
pub fn weight_from_value(value: u16) -> (r: Weight)
    ensures
        is_nearest_step(value, r),
{
    let mut best = Weight::Thin;
    let mut best_gap = abs_diff(value, 100);
    let mut i: usize = 1;
    while i < 9
        invariant
            1 <= i <= 9,
            best_gap == weight_gap(value, weight_number(best)),
            weight_number(best) < 100 * i + 1,
            forall|o: Weight|
                weight_number(o) <= 100 * i ==> {
                    ||| best_gap < weight_gap(value, #[trigger] weight_number(o))
                    ||| (best_gap == weight_gap(value, weight_number(o)) && weight_number(best)
                        <= weight_number(o))
                },
        decreases 9 - i,
    {
        let step = step_at(i);
        let gap = abs_diff(value, weight_value(step));
        if gap < best_gap {
            best = step;
            best_gap = gap;
        }
        i = i + 1;
    }
    best
}

/// A face of the font database, as far as weight matching reads it.
pub struct FaceInfo {
    pub style: FontStyle,
    pub stretch: FontStretch,
    /// The family names the face is listed under.
    pub families: Vec<String>,
    /// The face's numeric CSS weight.
    pub weight: u16,
}

/// What weight matching reads of a face.
pub struct FaceView {
    pub style: FontStyle,
    pub stretch: FontStretch,
    pub families: Seq<Seq<char>>,
    pub weight: u16,
}

impl View for FaceInfo {
    type V = FaceView;

    open spec fn view(&self) -> FaceView {
        FaceView {
            style: self.style,
            stretch: self.stretch,
            families: self.families@.map_values(|f: String| f@),
            weight: self.weight,
        }
    }
}

/// Whether `face` has the wanted style and stretch and is listed under `family`.
pub open spec fn face_matches(
    face: FaceView,
    family: Seq<char>,
    style: FontStyle,
    stretch: FontStretch,
) -> bool {
    &&& face.style == style
    &&& face.stretch == stretch
    &&& face.families.contains(family)
}

/// The weight of the first matching face among `faces` whose weight is
/// nearest to `want`; `None` when no face matches.
pub open spec fn nearest_face_weight(
    faces: Seq<FaceView>,
    family: Seq<char>,
    want: u16,
    style: FontStyle,
    stretch: FontStretch,
) -> Option<u16>
    decreases faces.len(),
{
    if faces.len() == 0 {
        None
    } else {
        let earlier = nearest_face_weight(faces.drop_last(), family, want, style, stretch);
        let f = faces.last();
        if !face_matches(f, family, style, stretch) {
            earlier
        } else {
            match earlier {
                None => Some(f.weight),
                Some(w) => if weight_gap(f.weight, want) < weight_gap(w, want) {
                    Some(f.weight)
                } else {
                    earlier
                },
            }
        }
    }
}

/// The views of the faces `faces`.
pub open spec fn face_views(faces: Seq<FaceInfo>) -> Seq<FaceView> {
    faces.map_values(|f: FaceInfo| f@)
}

/// Whether `f` is a face of `family` with exactly the style `style` and
/// the stretch `stretch`.
pub open spec fn exact_face(f: FaceView, family: Seq<char>, style: FontStyle, stretch: FontStretch) -> bool {
    f.style == style && f.stretch == stretch && f.families.contains(family)
}

/// Whether `faces[i]` is such a face nearest in weight to `want`: every
/// such face before it is farther from `want`, none after it is nearer.
pub open spec fn first_nearest(
    faces: Seq<FaceView>,
    family: Seq<char>,
    want: u16,
    style: FontStyle,
    stretch: FontStretch,
    i: int,
) -> bool {
    &&& 0 <= i < faces.len()
    &&& exact_face(faces[i], family, style, stretch)
    &&& forall|j: int|
        0 <= j < faces.len() && exact_face(#[trigger] faces[j], family, style, stretch) ==> (if j < i {
            weight_gap(faces[i].weight, want) < weight_gap(faces[j].weight, want)
        } else {
            weight_gap(faces[i].weight, want) <= weight_gap(faces[j].weight, want)
        })
}

proof fn lemma_first_nearest_new_last(
    faces: Seq<FaceView>,
    family: Seq<char>,
    want: u16,
    style: FontStyle,
    stretch: FontStretch,
)
    requires
        faces.len() > 0,
        exact_face(faces.last(), family, style, stretch),
        forall|j: int|
            0 <= j < faces.len() - 1 && exact_face(#[trigger] faces[j], family, style, stretch) ==> weight_gap(
                faces.last().weight,
                want,
            ) < weight_gap(faces[j].weight, want),
    ensures
        first_nearest(faces, family, want, style, stretch, faces.len() - 1),
{
}

proof fn lemma_first_nearest_kept(
    faces: Seq<FaceView>,
    family: Seq<char>,
    want: u16,
    style: FontStyle,
    stretch: FontStretch,
    i: int,
)
    requires
        faces.len() > 0,
        first_nearest(faces.drop_last(), family, want, style, stretch, i),
        exact_face(faces.last(), family, style, stretch) ==> weight_gap(faces[i].weight, want)
            <= weight_gap(faces.last().weight, want),
    ensures
        first_nearest(faces, family, want, style, stretch, i),
{
    let rest = faces.drop_last();
    assert forall|j: int|
        0 <= j < faces.len() && exact_face(#[trigger] faces[j], family, style, stretch) implies (if j < i {
        weight_gap(faces[i].weight, want) < weight_gap(faces[j].weight, want)
    } else {
        weight_gap(faces[i].weight, want) <= weight_gap(faces[j].weight, want)
    }) by {
        if j < faces.len() - 1 {
            assert(rest[j] == faces[j]);
        }
    }
    assert(rest[i] == faces[i]);
}

/// The weight matching picks among `faces`: `None` exactly when no face of
/// `family` has exactly the wanted style and stretch; otherwise the weight
/// of the first such face nearest in weight to `want`. Faces of another
/// style or stretch never count.
pub proof fn lemma_nearest_face_weight_picks(
    faces: Seq<FaceView>,
    family: Seq<char>,
    want: u16,
    style: FontStyle,
    stretch: FontStretch,
)
    ensures
        match nearest_face_weight(faces, family, want, style, stretch) {
            None => forall|j: int|
                0 <= j < faces.len() ==> !exact_face(#[trigger] faces[j], family, style, stretch),
            Some(w) => exists|i: int|
                #[trigger] first_nearest(faces, family, want, style, stretch, i) && faces[i].weight == w,
        },
    decreases faces.len(),
{
    if faces.len() > 0 {
        let rest = faces.drop_last();
        let n = faces.len() - 1;
        lemma_nearest_face_weight_picks(rest, family, want, style, stretch);
        let f = faces.last();
        assert(faces[n] == f);
        match nearest_face_weight(rest, family, want, style, stretch) {
            None => {
                assert forall|j: int| 0 <= j < n implies !exact_face(#[trigger] faces[j], family, style, stretch) by {
                    assert(rest[j] == faces[j]);
                }
                if face_matches(f, family, style, stretch) {
                    lemma_first_nearest_new_last(faces, family, want, style, stretch);
                    assert(first_nearest(faces, family, want, style, stretch, n));
                }
            },
            Some(w) => {
                let i = choose|i: int| #[trigger] first_nearest(rest, family, want, style, stretch, i) && rest[i].weight == w;
                assert(rest[i] == faces[i]);
                if face_matches(f, family, style, stretch) && weight_gap(f.weight, want) < weight_gap(w, want) {
                    assert forall|j: int|
                        0 <= j < n && exact_face(#[trigger] faces[j], family, style, stretch) implies weight_gap(
                        f.weight,
                        want,
                    ) < weight_gap(faces[j].weight, want) by {
                        assert(rest[j] == faces[j]);
                        assert(exact_face(rest[j], family, style, stretch));
                    }
                    lemma_first_nearest_new_last(faces, family, want, style, stretch);
                    assert(first_nearest(faces, family, want, style, stretch, n));
                } else {
                    lemma_first_nearest_kept(faces, family, want, style, stretch, i);
                    assert(first_nearest(faces, family, want, style, stretch, i));
                }
            },
        }
    }
}

fn listed_under(families: &Vec<String>, family: &String) -> (r: bool)
    ensures
        r == families@.map_values(|f: String| f@).contains(family@),
{
    let ghost names = families@.map_values(|f: String| f@);
    let mut i: usize = 0;
    while i < families.len()
        invariant
            i <= families@.len(),
            names == families@.map_values(|f: String| f@),
            forall|k: int| 0 <= k < i ==> names[k] != family@,
        decreases families@.len() - i,
    {
        if families[i] == *family {
            assert(names[i as int] == family@);
            return true;
        }
        i = i + 1;
    }
    false
}

/// Scans the faces of the font database for the weight nearest to `want`
/// among the faces of `family` with exactly the wanted style and stretch
/// (the first such face wins a tie), and names the step of that weight.
/// `None` when the family has no such face.
pub fn scan_nearest_weight(
    faces: &Vec<FaceInfo>,
    family: &str,
    want: Weight,
    style: FontStyle,
    stretch: FontStretch,
) -> (r: Option<Weight>)
    ensures
        match nearest_face_weight(
            faces@.map_values(|f: FaceInfo| f@),
            family@,
            weight_number(want),
            style,
            stretch,
        ) {
            None => r is None,
            Some(w) => r matches Some(step) && is_nearest_step(w, step),
        },
        r is None <==> forall|j: int|
            0 <= j < faces@.len() ==> !exact_face(#[trigger] faces@[j]@, family@, style, stretch),
        r matches Some(step) ==> exists|i: int|
            #[trigger] first_nearest(
                face_views(faces@),
                family@,
                weight_number(want),
                style,
                stretch,
                i,
            ) && is_nearest_step(faces@[i]@.weight, step),
{
    let ghost views = faces@.map_values(|f: FaceInfo| f@);
    let want_value = weight_value(want);
    let family_name = family.to_owned();
    let mut best: Option<u16> = None;
    let mut i: usize = 0;
    while i < faces.len()
        invariant
            i <= faces@.len(),
            views == faces@.map_values(|f: FaceInfo| f@),
            family_name@ == family@,
            want_value == weight_number(want),
            best == nearest_face_weight(views.take(i as int), family@, want_value, style, stretch),
        decreases faces@.len() - i,
    {
        let face = &faces[i];
        assert(views.take(i + 1).drop_last() =~= views.take(i as int));
        assert(views.take(i + 1).last() == face@);
        if face.style == style && face.stretch == stretch && listed_under(&face.families, &family_name) {
            let weight = face.weight;
            let closer = match best {
                Some(current) => abs_diff(weight, want_value) < abs_diff(current, want_value),
                None => true,
            };
            if closer {
                best = Some(weight);
            }
        }
        i = i + 1;
    }
    assert(views.take(faces@.len() as int) =~= views);
    proof {
        lemma_nearest_face_weight_picks(views, family@, want_value, style, stretch);
        assert forall|j: int| 0 <= j < faces@.len() implies #[trigger] faces@[j]@ == views[j] by {}
        assert(face_views(faces@) == views);
    }
    match best {
        Some(w) => Some(weight_from_value(w)),
        None => None,
    }
}

/// The style and weight asked of the renderer for entry text: italic and
/// bold are kept for Latin text but dropped to normal when the text holds
/// CJK characters, whose fallback faces come in regular only.
pub fn face_for_text(bold: bool, italic: bool, text: &str) -> (r: (FontStyle, Weight))
    ensures
        ({
            let cjk = exists|i: int| 0 <= i < text@.len() && crate::fallback::is_cjk_spec(#[trigger] text@[i]);
            &&& r.0 == if italic && !cjk { FontStyle::Italic } else { FontStyle::Normal }
            &&& r.1 == if bold && !cjk { Weight::Bold } else { Weight::Normal }
        }),
{
    let cjk = crate::fallback::contains_cjk(text);
    let style = if italic && !cjk {
        FontStyle::Italic
    } else {
        FontStyle::Normal
    };
    let weight = if bold && !cjk {
        Weight::Bold
    } else {
        Weight::Normal
    };
    (style, weight)
}

} // verus!

verus! {

/// Every raw weight has exactly one nearest step.
pub proof fn lemma_nearest_step_unique(value: u16, a: Weight, b: Weight)
    requires
        is_nearest_step(value, a),
        is_nearest_step(value, b),
    ensures
        a == b,
{
    assert(weight_gap(value, weight_number(a)) <= weight_gap(value, weight_number(b)));
    assert(weight_gap(value, weight_number(b)) <= weight_gap(value, weight_number(a)));
    assert(weight_number(a) == weight_number(b));
}

/// The step of a step's own number is that step: `weight_from_value` undoes
/// `weight_value`.
pub proof fn lemma_step_of_own_number(w: Weight, x: Weight)
    requires
        is_nearest_step(weight_number(w), x),
    ensures
        x == w,
{
    assert(weight_gap(weight_number(w), weight_number(x)) <= weight_gap(weight_number(w), weight_number(w)));
}

} // verus!
