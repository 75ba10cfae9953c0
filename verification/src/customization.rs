//! Visual customisation of buildings: architectural styles, facade
//! palettes, per-kind default appearance and the colour a building is drawn
//! in for its visual state.

use vstd::prelude::*;
use crate::ecs::BuildingType;
use crate::gpu_backend::chan;

verus! {

/// Architectural style of a building.
#[derive(Copy, Clone, Debug, PartialEq, Eq, Hash, Structural)]
pub enum ArchitecturalStyle {
    Modern,
    Classical,
    Industrial,
    Colonial,
    Brutalist,
    ArtDeco,
    Minimalist,
    Mediterranean,
}

impl ArchitecturalStyle {
    /// Every style, in declaration order.
    pub fn all() -> (r: [ArchitecturalStyle; 8])
        ensures
            r@ == seq![
                ArchitecturalStyle::Modern, ArchitecturalStyle::Classical, ArchitecturalStyle::Industrial,
                ArchitecturalStyle::Colonial, ArchitecturalStyle::Brutalist, ArchitecturalStyle::ArtDeco,
                ArchitecturalStyle::Minimalist, ArchitecturalStyle::Mediterranean,
            ],
    {
        let r = [
            ArchitecturalStyle::Modern, ArchitecturalStyle::Classical, ArchitecturalStyle::Industrial,
            ArchitecturalStyle::Colonial, ArchitecturalStyle::Brutalist, ArchitecturalStyle::ArtDeco,
            ArchitecturalStyle::Minimalist, ArchitecturalStyle::Mediterranean,
        ];
        assert(r@ =~= seq![
            ArchitecturalStyle::Modern, ArchitecturalStyle::Classical, ArchitecturalStyle::Industrial,
            ArchitecturalStyle::Colonial, ArchitecturalStyle::Brutalist, ArchitecturalStyle::ArtDeco,
            ArchitecturalStyle::Minimalist, ArchitecturalStyle::Mediterranean,
        ]);
        r
    }

    /// Display name of the style, in Spanish.
    pub fn name(&self) -> (r: &'static str)
        ensures
            r@ == match *self {
                ArchitecturalStyle::Modern => "Moderno"@,
                ArchitecturalStyle::Classical => "Clásico"@,
                ArchitecturalStyle::Industrial => "Industrial"@,
                ArchitecturalStyle::Colonial => "Colonial"@,
                ArchitecturalStyle::Brutalist => "Brutalista"@,
                ArchitecturalStyle::ArtDeco => "Art Decó"@,
                ArchitecturalStyle::Minimalist => "Minimalista"@,
                ArchitecturalStyle::Mediterranean => "Mediterráneo"@,
            },
    {
        match self {
            ArchitecturalStyle::Modern => "Moderno",
            ArchitecturalStyle::Classical => "Clásico",
            ArchitecturalStyle::Industrial => "Industrial",
            ArchitecturalStyle::Colonial => "Colonial",
            ArchitecturalStyle::Brutalist => "Brutalista",
            ArchitecturalStyle::ArtDeco => "Art Decó",
            ArchitecturalStyle::Minimalist => "Minimalista",
            ArchitecturalStyle::Mediterranean => "Mediterráneo",
        }
    }
}

/// ARGB facade palette.
#[derive(Copy, Clone, Debug, PartialEq, Eq, Structural)]
pub struct FacadeColor {
    pub primary: u32,
    pub secondary: u32,
    pub trim: u32,
    pub roof: u32,
}

/// The seven facade presets, in the order of [`FacadeColor::all_presets`]:
/// white, beige, red brick, blue slate, glass and steel, concrete, terracotta.
pub open spec fn preset(i: int) -> FacadeColor {
    if i == 0 {
        FacadeColor { primary: 0xFFF5_F5F5, secondary: 0xFFE0_E0E0, trim: 0xFFBD_BDBD, roof: 0xFF79_5555 }
    } else if i == 1 {
        FacadeColor { primary: 0xFFD7_CCC8, secondary: 0xFFBE_A9A0, trim: 0xFF8D_6E63, roof: 0xFF5D_4037 }
    } else if i == 2 {
        FacadeColor { primary: 0xFFC6_2839, secondary: 0xFF8E_2429, trim: 0xFFFF_F3E0, roof: 0xFF3E_2723 }
    } else if i == 3 {
        FacadeColor { primary: 0xFF60_7D8B, secondary: 0xFF45_5A64, trim: 0xFFFF_FFFF, roof: 0xFF26_3238 }
    } else if i == 4 {
        FacadeColor { primary: 0xFF90_CAF9, secondary: 0xFF42_A5F5, trim: 0xFFB0_BEC5, roof: 0xFF37_475F }
    } else if i == 5 {
        FacadeColor { primary: 0xFF9E_9E9E, secondary: 0xFF75_7575, trim: 0xFFBD_BDBD, roof: 0xFF42_4242 }
    } else {
        FacadeColor { primary: 0xFFE6_A873, secondary: 0xFFC4_7B4A, trim: 0xFFFF_ECB3, roof: 0xFF79_5548 }
    }
}

impl FacadeColor {
    /// White facade.
    pub fn white() -> (r: FacadeColor)
        ensures
            r == preset(0),
    {
        FacadeColor { primary: 0xFFF5_F5F5, secondary: 0xFFE0_E0E0, trim: 0xFFBD_BDBD, roof: 0xFF79_5555 }
    }

    /// Beige facade.
    pub fn beige() -> (r: FacadeColor)
        ensures
            r == preset(1),
    {
        FacadeColor { primary: 0xFFD7_CCC8, secondary: 0xFFBE_A9A0, trim: 0xFF8D_6E63, roof: 0xFF5D_4037 }
    }

    /// Red brick facade.
    pub fn red_brick() -> (r: FacadeColor)
        ensures
            r == preset(2),
    {
        FacadeColor { primary: 0xFFC6_2839, secondary: 0xFF8E_2429, trim: 0xFFFF_F3E0, roof: 0xFF3E_2723 }
    }

    /// Blue slate facade.
    pub fn blue_slate() -> (r: FacadeColor)
        ensures
            r == preset(3),
    {
        FacadeColor { primary: 0xFF60_7D8B, secondary: 0xFF45_5A64, trim: 0xFFFF_FFFF, roof: 0xFF26_3238 }
    }

    /// Glass and steel facade.
    pub fn glass_steel() -> (r: FacadeColor)
        ensures
            r == preset(4),
    {
        FacadeColor { primary: 0xFF90_CAF9, secondary: 0xFF42_A5F5, trim: 0xFFB0_BEC5, roof: 0xFF37_475F }
    }

    /// Concrete facade.
    pub fn concrete() -> (r: FacadeColor)
        ensures
            r == preset(5),
    {
        FacadeColor { primary: 0xFF9E_9E9E, secondary: 0xFF75_7575, trim: 0xFFBD_BDBD, roof: 0xFF42_4242 }
    }

    /// Terracotta facade.
    pub fn terracotta() -> (r: FacadeColor)
        ensures
            r == preset(6),
    {
        FacadeColor { primary: 0xFFE6_A873, secondary: 0xFFC4_7B4A, trim: 0xFFFF_ECB3, roof: 0xFF79_5548 }
    }

    /// The seven presets with their display names.
    pub fn all_presets() -> (r: [(&'static str, FacadeColor); 7])
        ensures
            forall|i: int| 0 <= i < 7 ==> #[trigger] r@[i].1 == preset(i),
            r@[0].0@ == "Blanco"@,
            r@[1].0@ == "Beige"@,
            r@[2].0@ == "Ladrillo Rojo"@,
            r@[3].0@ == "Azul Pizarra"@,
            r@[4].0@ == "Vidrio y Acero"@,
            r@[5].0@ == "Concreto"@,
            r@[6].0@ == "Terracota"@,
    {
        [
            ("Blanco", Self::white()),
            ("Beige", Self::beige()),
            ("Ladrillo Rojo", Self::red_brick()),
            ("Azul Pizarra", Self::blue_slate()),
            ("Vidrio y Acero", Self::glass_steel()),
            ("Concreto", Self::concrete()),
            ("Terracota", Self::terracotta()),
        ]
    }
}

/// Visual state of a building.
#[derive(Copy, Clone, Debug, PartialEq, Eq, Structural)]
pub enum BuildingVisualState {
    UnderConstruction,
    Normal,
    WellMaintained,
    Luxury,
    Neglected,
    Ruined,
    Abandoned,
}

/// How a building looks. The relative width is kept in percent (100 is the
/// standard width).
#[derive(Copy, Clone, Debug)]
pub struct BuildingAppearance {
    pub style: ArchitecturalStyle,
    pub colors: FacadeColor,
    pub height_floors: u8,
    pub width_percent: u16,
    pub has_front_garden: bool,
    pub decorative_roof: bool,
    pub has_balconies: bool,
    pub visual_state: BuildingVisualState,
    pub detail_level: u8,
}

/// Facade palette that goes with a style.
pub open spec fn style_colors(style: ArchitecturalStyle) -> FacadeColor {
    match style {
        ArchitecturalStyle::Modern => preset(4),
        ArchitecturalStyle::Classical => preset(0),
        ArchitecturalStyle::Industrial => preset(5),
        ArchitecturalStyle::Colonial => preset(1),
        ArchitecturalStyle::Brutalist => preset(5),
        ArchitecturalStyle::ArtDeco => preset(6),
        ArchitecturalStyle::Minimalist => preset(0),
        ArchitecturalStyle::Mediterranean => preset(6),
    }
}

/// Default look of a building kind: style, palette, floors, width (percent),
/// front garden, decorative roof, balconies and detail level.
pub open spec fn default_appearance(bt: BuildingType) -> BuildingAppearance {
    let (style, colors, floors, width, garden, roof, balconies, detail) = match bt {
        BuildingType::House => (ArchitecturalStyle::Colonial, preset(1), 1u8, 100u16, true, true, false, 1u8),
        BuildingType::Apartment => (ArchitecturalStyle::Modern, preset(5), 5u8, 150u16, false, false, true, 1u8),
        BuildingType::Shop => (ArchitecturalStyle::ArtDeco, preset(4), 2u8, 120u16, false, true, false, 1u8),
        BuildingType::Office => (ArchitecturalStyle::Modern, preset(4), 8u8, 200u16, false, false, false, 1u8),
        BuildingType::Factory => (ArchitecturalStyle::Industrial, preset(5), 1u8, 300u16, false, false, false, 0u8),
        _ => (ArchitecturalStyle::Mediterranean, preset(6), 1u8, 100u16, true, true, false, 0u8),
    };
    BuildingAppearance {
        style,
        colors,
        height_floors: floors,
        width_percent: width,
        has_front_garden: garden,
        decorative_roof: roof,
        has_balconies: balconies,
        visual_state: BuildingVisualState::Normal,
        detail_level: detail,
    }
}

/// Channel `c` brightened by `add`, at most 255.
pub open spec fn brighten(c: u32, add: u32) -> u32 {
    if c + add <= 255 { (c + add) as u32 } else { 255 }
}

impl BuildingAppearance {
    /// Default look of a building kind (see `default_appearance`): houses,
    /// apartment blocks, shops, offices and factories have their own; farms,
    /// and the kinds without a look of their own (hospitals, schools and
    /// police stations), get the farm's.
    pub fn default_for(building_type: BuildingType) -> (r: BuildingAppearance)
        ensures
            r == default_appearance(building_type),
    {
        match building_type {
            BuildingType::House => BuildingAppearance {
                style: ArchitecturalStyle::Colonial,
                colors: FacadeColor::beige(),
                height_floors: 1,
                width_percent: 100,
                has_front_garden: true,
                decorative_roof: true,
                has_balconies: false,
                visual_state: BuildingVisualState::Normal,
                detail_level: 1,
            },
            BuildingType::Apartment => BuildingAppearance {
                style: ArchitecturalStyle::Modern,
                colors: FacadeColor::concrete(),
                height_floors: 5,
                width_percent: 150,
                has_front_garden: false,
                decorative_roof: false,
                has_balconies: true,
                visual_state: BuildingVisualState::Normal,
                detail_level: 1,
            },
            BuildingType::Shop => BuildingAppearance {
                style: ArchitecturalStyle::ArtDeco,
                colors: FacadeColor::glass_steel(),
                height_floors: 2,
                width_percent: 120,
                has_front_garden: false,
                decorative_roof: true,
                has_balconies: false,
                visual_state: BuildingVisualState::Normal,
                detail_level: 1,
            },
            BuildingType::Office => BuildingAppearance {
                style: ArchitecturalStyle::Modern,
                colors: FacadeColor::glass_steel(),
                height_floors: 8,
                width_percent: 200,
                has_front_garden: false,
                decorative_roof: false,
                has_balconies: false,
                visual_state: BuildingVisualState::Normal,
                detail_level: 1,
            },
            BuildingType::Factory => BuildingAppearance {
                style: ArchitecturalStyle::Industrial,
                colors: FacadeColor::concrete(),
                height_floors: 1,
                width_percent: 300,
                has_front_garden: false,
                decorative_roof: false,
                has_balconies: false,
                visual_state: BuildingVisualState::Normal,
                detail_level: 0,
            },
            _ => BuildingAppearance {
                style: ArchitecturalStyle::Mediterranean,
                colors: FacadeColor::terracotta(),
                height_floors: 1,
                width_percent: 100,
                has_front_garden: true,
                decorative_roof: true,
                has_balconies: false,
                visual_state: BuildingVisualState::Normal,
                detail_level: 0,
            },
        }
    }

    /// The same building in another style, with that style's palette.
    pub fn with_style(self, style: ArchitecturalStyle) -> (r: BuildingAppearance)
        ensures
            r == (BuildingAppearance { style, colors: style_colors(style), ..self }),
    {
        let mut a = self;
        a.style = style;
        a.colors = match style {
            ArchitecturalStyle::Modern => FacadeColor::glass_steel(),
            ArchitecturalStyle::Classical => FacadeColor::white(),
            ArchitecturalStyle::Industrial => FacadeColor::concrete(),
            ArchitecturalStyle::Colonial => FacadeColor::beige(),
            ArchitecturalStyle::Brutalist => FacadeColor::concrete(),
            ArchitecturalStyle::ArtDeco => FacadeColor::terracotta(),
            ArchitecturalStyle::Minimalist => FacadeColor::white(),
            ArchitecturalStyle::Mediterranean => FacadeColor::terracotta(),
        };
        a
    }

    /// The same building with another palette.
    pub fn with_colors(self, colors: FacadeColor) -> (r: BuildingAppearance)
        ensures
            r == (BuildingAppearance { colors, ..self }),
    {
        let mut a = self;
        a.colors = colors;
        a
    }

    /// The same building with `floors` floors, kept between 1 and 20.
    pub fn with_height(self, floors: u8) -> (r: BuildingAppearance)
        ensures
            r == (BuildingAppearance {
                height_floors: if floors > 20 { 20u8 } else if floors < 1 { 1u8 } else { floors },
                ..self
            }),
    {
        let mut a = self;
        let capped = if floors < 20 { floors } else { 20 };
        a.height_floors = if capped > 1 { capped } else { 1 };
        a
    }

    /// The same building, luxurious and fully detailed.
    pub fn make_luxury(self) -> (r: BuildingAppearance)
        ensures
            r == (BuildingAppearance { visual_state: BuildingVisualState::Luxury, detail_level: 3, ..self }),
    {
        let mut a = self;
        a.visual_state = BuildingVisualState::Luxury;
        a.detail_level = 3;
        a
    }

    /// The same building, in ruins.
    pub fn make_ruined(self) -> (r: BuildingAppearance)
        ensures
            r == (BuildingAppearance { visual_state: BuildingVisualState::Ruined, ..self }),
    {
        let mut a = self;
        a.visual_state = BuildingVisualState::Ruined;
        a
    }

    /// Colour the building is drawn in: scaffolding orange while under
    /// construction; the primary colour when normal or well kept; brightened
    /// towards gold when luxurious; darkened to three quarters when
    /// neglected; fixed greys when ruined or abandoned.
    pub open spec fn render_color_spec(self) -> u32 {
        let p = self.colors.primary;
        match self.visual_state {
            BuildingVisualState::UnderConstruction => 0xFFFF_A000u32,
            BuildingVisualState::Normal => p,
            BuildingVisualState::WellMaintained => p,
            BuildingVisualState::Luxury => 0xFF00_0000u32 | (brighten(chan(p, 16), 0x30) << 16u32)
                | (brighten(chan(p, 8), 0x20) << 8u32) | brighten(chan(p, 0), 0x10),
            BuildingVisualState::Neglected => 0xFF00_0000u32 | (((chan(p, 16) * 3 / 4) as u32) << 16u32)
                | (((chan(p, 8) * 3 / 4) as u32) << 8u32) | ((chan(p, 0) * 3 / 4) as u32),
            BuildingVisualState::Ruined => 0xFF69_6969u32,
            BuildingVisualState::Abandoned => 0xFF4A_4A4Au32,
        }
    }

    /// Colour the building is drawn in, see [`Self::render_color_spec`].
    pub fn render_color(&self) -> (r: u32)
        ensures
            r == self.render_color_spec(),
    {
        let p = self.colors.primary;
        proof {
            lemma_chan_le_255(p, 16);
            lemma_chan_le_255(p, 8);
            lemma_chan_le_255(p, 0);
            assert(p & 0xFFu32 == (p >> 0u32) & 0xFFu32) by (bit_vector);
        }
        match self.visual_state {
            BuildingVisualState::UnderConstruction => 0xFFFF_A000,
            BuildingVisualState::Normal => p,
            BuildingVisualState::WellMaintained => p,
            BuildingVisualState::Luxury => {
                let r0 = ((p >> 16) & 0xFF) + 0x30;
                let g0 = ((p >> 8) & 0xFF) + 0x20;
                let b0 = (p & 0xFF) + 0x10;
                let r = if r0 < 0xFF { r0 } else { 0xFF };
                let g = if g0 < 0xFF { g0 } else { 0xFF };
                let b = if b0 < 0xFF { b0 } else { 0xFF };
                0xFF00_0000 | (r << 16) | (g << 8) | b
            },
            BuildingVisualState::Neglected => {
                let r = ((p >> 16) & 0xFF) * 3 / 4;
                let g = ((p >> 8) & 0xFF) * 3 / 4;
                let b = (p & 0xFF) * 3 / 4;
                0xFF00_0000 | (r << 16) | (g << 8) | b
            },
            BuildingVisualState::Ruined => 0xFF69_6969,
            BuildingVisualState::Abandoned => 0xFF4A_4A4A,
        }
    }
}

proof fn lemma_chan_le_255(c: u32, shift: u32)
    by (bit_vector)
    ensures
        (c >> shift) & 0xFFu32 <= 255,
{
}

} // verus!
