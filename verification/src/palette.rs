use vstd::prelude::*;

verus! {

/// An RGBA color with 8-bit channels. Alpha 0 is fully transparent and
/// alpha 255 fully opaque; everything in between is translucent.
#[derive(Clone, Copy, Debug, PartialEq, Eq, Structural)]
pub struct Color {
    pub r: u8,
    pub g: u8,
    pub b: u8,
    pub a: u8,
}

/// One channel of the alpha-weighted average of two colors, truncated to an
/// integer. Meaningful only when at least one alpha is positive.
pub open spec fn mix_channel(c1: int, a1: int, c2: int, a2: int) -> int {
    (c1 * a1 + c2 * a2) / (a1 + a2)
}

/// Alpha-weighted average of `s` over `o`: each channel is weighted by its
/// own alpha, and the combined alpha is the sum of the two alphas, saturated
/// at the fully opaque channel value. This simplified front-to-back
/// compositing rule deliberately performs no further attenuation.
pub open spec fn spec_weight_mix(s: Color, o: Color) -> Color
    recommends
        s.a + o.a > 0,
{
    Color {
        r: mix_channel(s.r as int, s.a as int, o.r as int, o.a as int) as u8,
        g: mix_channel(s.g as int, s.a as int, o.g as int, o.a as int) as u8,
        b: mix_channel(s.b as int, s.a as int, o.b as int, o.a as int) as u8,
        a: if s.a + o.a > 255 {
            255u8
        } else {
            (s.a + o.a) as u8
        },
    }
}

impl Color {
    pub fn new(r: u8, g: u8, b: u8, a: u8) -> (c: Color)
        ensures
            c == (Color { r, g, b, a }),
    {
        Color { r, g, b, a }
    }

    /// Composite this color over `other` by alpha-weighted averaging.
    pub fn weight_mix(&self, other: Color) -> (m: Color)
        requires
            self.a as int + other.a as int > 0,
        ensures
            m == spec_weight_mix(*self, other),
    {
        let c: u32 = self.a as u32 + other.a as u32;
        let rw: u32 = (weigh(self.r, self.a) + weigh(other.r, other.a)) / c;
        let gw: u32 = (weigh(self.g, self.a) + weigh(other.g, other.a)) / c;
        let bw: u32 = (weigh(self.b, self.a) + weigh(other.b, other.a)) / c;
        proof {
            lemma_mix_channel_bound(self.r as int, self.a as int, other.r as int, other.a as int);
            lemma_mix_channel_bound(self.g as int, self.a as int, other.g as int, other.a as int);
            lemma_mix_channel_bound(self.b as int, self.a as int, other.b as int, other.a as int);
        }
        Color {
            r: rw as u8,
            g: gw as u8,
            b: bw as u8,
            a: if c > 255 {
                255
            } else {
                c as u8
            },
        }
    }
}

/// One channel value scaled by an alpha, widened so that no sum of two such
/// products can overflow.
fn weigh(channel: u8, alpha: u8) -> (w: u32)
    ensures
        w == channel as int * alpha as int,
        w <= 255 * 255,
{
    proof {
        assert(channel as int * alpha as int <= 255 * 255) by (nonlinear_arith)
            requires
                channel <= 255,
                alpha <= 255,
        ;
    }
    channel as u32 * alpha as u32
}

/// A weighted average of channel values never exceeds the largest channel
/// value, so mixed channels stay within the 8-bit range.
proof fn lemma_mix_channel_bound(c1: int, a1: int, c2: int, a2: int)
    by (nonlinear_arith)
    requires
        0 <= c1 <= 255,
        0 <= c2 <= 255,
        0 <= a1,
        0 <= a2,
        a1 + a2 > 0,
    ensures
        0 <= mix_channel(c1, a1, c2, a2) <= 255,
{
}

/// The small integer identifier stored per voxel; `0` is reserved for Air.
pub type MaterialID = u8;

/// The color that the fixed palette assigns to a material identifier.
/// Identifiers with no assigned material resolve to Air, the fully
/// transparent default.
pub open spec fn material_color(id: MaterialID) -> Color {
    if id == 1 {
        Color { r: 146, g: 142, b: 133, a: 255 }  // Stone
    } else if id == 2 {
        Color { r: 139, g: 69, b: 19, a: 255 }  // Dirt
    } else if id == 3 {
        Color { r: 0, g: 255, b: 0, a: 255 }  // Grass
    } else if id == 4 {
        Color { r: 0, g: 0, b: 255, a: 255 }  // Water
    } else if id == 5 {
        Color { r: 255, g: 255, b: 0, a: 255 }  // Sand
    } else if id == 6 {
        Color { r: 216, g: 181, b: 137, a: 255 }  // Wood
    } else {
        Color { r: 0, g: 0, b: 0, a: 0 }  // Air and unassigned identifiers
    }
}

/// The properties the palette stores for one material.
#[derive(Clone, Copy, Debug, PartialEq, Eq, Structural)]
pub struct Material {
    pub color: Color,
}

impl Material {
    /// Look a material up in the fixed palette. The result depends on the
    /// identifier alone, so repeated lookups always agree.
    pub fn from_id(id: MaterialID) -> (m: Material)
        ensures
            m.color == material_color(id),
    {
        Material { color: material_color_exec(id) }
    }
}

fn material_color_exec(id: MaterialID) -> (c: Color)
    ensures
        c == material_color(id),
{
    if id == 1 {
        Color { r: 146, g: 142, b: 133, a: 255 }
    } else if id == 2 {
        Color { r: 139, g: 69, b: 19, a: 255 }
    } else if id == 3 {
        Color { r: 0, g: 255, b: 0, a: 255 }
    } else if id == 4 {
        Color { r: 0, g: 0, b: 255, a: 255 }
    } else if id == 5 {
        Color { r: 255, g: 255, b: 0, a: 255 }
    } else if id == 6 {
        Color { r: 216, g: 181, b: 137, a: 255 }
    } else {
        Color { r: 0, g: 0, b: 0, a: 0 }
    }
}

/// The closed enumeration of materials the palette assigns colors to.
#[derive(Clone, Copy, Debug)]
pub enum Materials {
    Air,
    Stone,
    Dirt,
    Grass,
    Water,
    Sand,
    Wood,
}

impl Materials {
    /// The identifier under which this material is stored in voxels.
    pub open spec fn spec_id(self) -> MaterialID {
        match self {
            Materials::Air => 0,
            Materials::Stone => 1,
            Materials::Dirt => 2,
            Materials::Grass => 3,
            Materials::Water => 4,
            Materials::Sand => 5,
            Materials::Wood => 6,
        }
    }

    /// The identifier under which this material is stored in voxels.
    pub fn id(self) -> (id: MaterialID)
        ensures
            id == self.spec_id(),
    {
        match self {
            Materials::Air => 0,
            Materials::Stone => 1,
            Materials::Dirt => 2,
            Materials::Grass => 3,
            Materials::Water => 4,
            Materials::Sand => 5,
            Materials::Wood => 6,
        }
    }

    /// The palette entry of this material.
    pub fn get_properties(self) -> (m: Material)
        ensures
            m.color == material_color(self.spec_id()),
    {
        Material::from_id(self.id())
    }

    /// The full palette as a table: one entry per possible identifier, every
    /// entry agreeing with the fixed assignment.
    pub fn init_pallete() -> (t: Vec<Material>)
        ensures
            t@.len() == 256,
            forall|i: int| 0 <= i < 256 ==> t@[i].color == material_color(i as MaterialID),
    {
        let mut t: Vec<Material> = Vec::new();
        let mut i: usize = 0;
        while i < 256
            invariant
                i <= 256,
                t@.len() == i,
                forall|j: int| 0 <= j < i ==> t@[j].color == material_color(j as MaterialID),
            decreases 256 - i,
        {
            t.push(Material::from_id(i as u8));
            i = i + 1;
        }
        t
    }
}

/// The reserved Air identifier is fully transparent, and every identifier
/// outside the enumerated materials resolves to the same transparent default.
pub proof fn lemma_palette_air()
    ensures
        material_color(0).a == 0,
        forall|id: MaterialID| id > 6 ==> #[trigger] material_color(id) == material_color(0),
{
}

} // verus!
