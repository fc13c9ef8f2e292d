use vstd::prelude::*;
use crate::pixel::Rgba;

verus! {

/// The built-in palette of 32 colors, indexed by an action's color index.
pub open spec fn default_palette_spec() -> Seq<Rgba> {
    seq![
        Rgba([0, 0, 0, 255]),
        Rgba([34, 34, 34, 255]),
        Rgba([85, 85, 85, 255]),
        Rgba([136, 136, 136, 255]),
        Rgba([205, 205, 205, 255]),
        Rgba([255, 255, 255, 255]),
        Rgba([255, 213, 188, 255]),
        Rgba([255, 183, 131, 255]),
        Rgba([182, 109, 61, 255]),
        Rgba([119, 67, 31, 255]),
        Rgba([252, 117, 16, 255]),
        Rgba([252, 168, 14, 255]),
        Rgba([253, 232, 23, 255]),
        Rgba([255, 244, 145, 255]),
        Rgba([190, 255, 64, 255]),
        Rgba([112, 221, 19, 255]),
        Rgba([49, 161, 23, 255]),
        Rgba([11, 95, 53, 255]),
        Rgba([39, 126, 108, 255]),
        Rgba([50, 182, 159, 255]),
        Rgba([136, 255, 243, 255]),
        Rgba([36, 181, 254, 255]),
        Rgba([18, 92, 199, 255]),
        Rgba([38, 41, 96, 255]),
        Rgba([139, 47, 168, 255]),
        Rgba([210, 76, 233, 255]),
        Rgba([255, 89, 239, 255]),
        Rgba([255, 169, 217, 255]),
        Rgba([255, 100, 116, 255]),
        Rgba([240, 37, 35, 255]),
        Rgba([177, 18, 6, 255]),
        Rgba([116, 12, 0, 255]),
    ]
}

/// The built-in palette.
pub fn default_palette() -> (p: Vec<Rgba>)
    ensures
        p@ == default_palette_spec(),
{
    let mut p: Vec<Rgba> = Vec::new();
    p.push(Rgba([0, 0, 0, 255])); // Black
    p.push(Rgba([34, 34, 34, 255])); // Dark Grey
    p.push(Rgba([85, 85, 85, 255])); // Deep Grey
    p.push(Rgba([136, 136, 136, 255])); // Medium Grey
    p.push(Rgba([205, 205, 205, 255])); // Light Grey
    p.push(Rgba([255, 255, 255, 255])); // White
    p.push(Rgba([255, 213, 188, 255])); // Beige
    p.push(Rgba([255, 183, 131, 255])); // Peach
    p.push(Rgba([182, 109, 61, 255])); // Brown
    p.push(Rgba([119, 67, 31, 255])); // Chocolate
    p.push(Rgba([252, 117, 16, 255])); // Rust
    p.push(Rgba([252, 168, 14, 255])); // Orange
    p.push(Rgba([253, 232, 23, 255])); // Yellow
    p.push(Rgba([255, 244, 145, 255])); // Pastel Yellow
    p.push(Rgba([190, 255, 64, 255])); // Lime
    p.push(Rgba([112, 221, 19, 255])); // Green
    p.push(Rgba([49, 161, 23, 255])); // Dark Green
    p.push(Rgba([11, 95, 53, 255])); // Forest
    p.push(Rgba([39, 126, 108, 255])); // Dark Teal
    p.push(Rgba([50, 182, 159, 255])); // Light Teal
    p.push(Rgba([136, 255, 243, 255])); // Aqua
    p.push(Rgba([36, 181, 254, 255])); // Azure
    p.push(Rgba([18, 92, 199, 255])); // Blue
    p.push(Rgba([38, 41, 96, 255])); // Navy
    p.push(Rgba([139, 47, 168, 255])); // Purple
    p.push(Rgba([210, 76, 233, 255])); // Mauve
    p.push(Rgba([255, 89, 239, 255])); // Magenta
    p.push(Rgba([255, 169, 217, 255])); // Pink
    p.push(Rgba([255, 100, 116, 255])); // Watermelon
    p.push(Rgba([240, 37, 35, 255])); // Red
    p.push(Rgba([177, 18, 6, 255])); // Rose
    p.push(Rgba([116, 12, 0, 255])); // Maroon
    assert(p@ =~= default_palette_spec());
    p
}

/// Colors from their channels given four at a time, red, green, blue and
/// alpha; `None` where the count is not a positive multiple of four or a
/// value lies outside `0..=255`.
pub fn colors_from_channels(values: &[i64]) -> (r: Option<Vec<Rgba>>)
    ensures
        r is Some <==> values@.len() > 0 && values@.len() % 4 == 0 && forall|i: int|
            0 <= i < values@.len() ==> 0 <= #[trigger] values@[i] <= 255,
        r matches Some(p) ==> p@.len() == values@.len() / 4 && forall|k: int, c: int|
            0 <= k < p@.len() && 0 <= c < 4 ==> #[trigger] p@[k].0[c] == values@[4 * k + c],
{
    let n = values.len();
    if n == 0 || n % 4 != 0 {
        return None;
    }
    let mut i: usize = 0;
    while i < n
        invariant
            n == values@.len(),
            0 <= i <= n,
            forall|j: int| 0 <= j < i ==> 0 <= #[trigger] values@[j] <= 255,
        decreases n - i,
    {
        if values[i] < 0 || values[i] > 255 {
            return None;
        }
        i = i + 1;
    }
    let mut p: Vec<Rgba> = Vec::new();
    let mut k: usize = 0;
    while k < n / 4
        invariant
            n == values@.len(),
            n % 4 == 0,
            forall|j: int| 0 <= j < n ==> 0 <= #[trigger] values@[j] <= 255,
            0 <= k <= n / 4,
            p@.len() == k,
            forall|m: int, c: int|
                0 <= m < k && 0 <= c < 4 ==> #[trigger] p@[m].0[c] == values@[4 * m + c],
        decreases n / 4 - k,
    {
        let color = Rgba(
            [
                values[4 * k] as u8,
                values[4 * k + 1] as u8,
                values[4 * k + 2] as u8,
                values[4 * k + 3] as u8,
            ],
        );
        p.push(color);
        k = k + 1;
    }
    Some(p)
}

} // verus!
