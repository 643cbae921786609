use vstd::prelude::*;

use crate::error::ProtocolError;
use crate::identifier::{Identifier, IdentifierView};
use crate::nbt::{entries_view, entry, push_entry, string_tag, Nbt, NbtView, ToNbt};
use crate::registry::Registry;

pub use crate::codec::BlockPos;

verus! {

/// An entry only when the value is present.
pub open spec fn optional_entry(name: Seq<char>, value: Option<NbtView>) -> Seq<(Seq<char>, NbtView)> {
    match value {
        Some(v) => seq![(name, v)],
        None => Seq::empty(),
    }
}

/// Appends `name: value` when a value is given.
fn push_optional(v: &mut Vec<(String, Nbt)>, name: &str, value: Option<Nbt>)
    ensures
        entries_view(final(v)@) == entries_view(old(v)@) + optional_entry(
            name@,
            match value {
                Some(t) => Some(t@),
                None => None,
            },
        ),
{
    match value {
        Some(t) => push_entry(v, name, t),
        None => {
            assert(entries_view(v@) + Seq::<(Seq<char>, NbtView)>::empty() =~= entries_view(v@));
        },
    }
}

pub open spec fn byte_of(b: bool) -> NbtView {
    NbtView::Byte(
        if b {
            1
        } else {
            0
        },
    )
}

fn bool_tag(b: bool) -> (r: Nbt)
    ensures
        r@ == byte_of(b),
{
    Nbt::Byte(
        if b {
            1
        } else {
            0
        },
    )
}

#[derive(Debug, Clone, Copy, PartialEq, Eq, Structural)]
pub enum BiomePrecipitation {
    NoPrecipitation,
    Rain,
    Snow,
}

pub open spec fn precipitation_name(p: BiomePrecipitation) -> Seq<char> {
    match p {
        BiomePrecipitation::NoPrecipitation => "none"@,
        BiomePrecipitation::Rain => "rain"@,
        BiomePrecipitation::Snow => "snow"@,
    }
}

#[derive(Debug, Clone, Copy, PartialEq, Eq, Structural)]
pub enum BiomeTemperatureModifier {
    Unmodified,
    Frozen,
}

pub open spec fn temperature_modifier_name(m: BiomeTemperatureModifier) -> Seq<char> {
    match m {
        BiomeTemperatureModifier::Unmodified => "none"@,
        BiomeTemperatureModifier::Frozen => "frozen"@,
    }
}

#[derive(Debug, Clone, Copy, PartialEq, Eq, Structural)]
pub enum BiomeGrassColorModifier {
    Unmodified,
    DarkForest,
    Swamp,
}

pub open spec fn grass_modifier_name(m: BiomeGrassColorModifier) -> Seq<char> {
    match m {
        BiomeGrassColorModifier::Unmodified => "none"@,
        BiomeGrassColorModifier::DarkForest => "dark_forest"@,
        BiomeGrassColorModifier::Swamp => "swamp"@,
    }
}

/// Weather of a biome; temperatures and downfall are the bits of `f32`s.
#[derive(Debug, Clone, Copy, PartialEq, Eq, Structural)]
pub struct BiomeWeather {
    pub precipitation: BiomePrecipitation,
    pub temperature_bits: u32,
    pub temperature_modifier: Option<BiomeTemperatureModifier>,
    pub downfall_bits: u32,
}

#[derive(Debug, Clone, Copy, PartialEq, Eq, Structural)]
pub struct BiomeEffects {
    pub fog_color: i32,
    pub water_color: i32,
    pub water_fog_color: i32,
    pub sky_color: i32,
    pub foliage_color: Option<i32>,
    pub grass_color: Option<i32>,
    pub grass_color_modifier: Option<BiomeGrassColorModifier>,
}

#[derive(Debug, Clone, Copy, PartialEq, Eq, Structural)]
pub struct Biome {
    pub weather: BiomeWeather,
    pub effects: BiomeEffects,
}

pub open spec fn int_opt(v: Option<i32>) -> Option<NbtView> {
    match v {
        Some(i) => Some(NbtView::Int(i)),
        None => None,
    }
}

/// The compound of a biome's effects.
pub open spec fn effects_nbt(e: BiomeEffects) -> NbtView {
    NbtView::Compound(
        entry("fog_color"@, NbtView::Int(e.fog_color)) + entry(
            "water_color"@,
            NbtView::Int(e.water_color),
        ) + entry("water_fog_color"@, NbtView::Int(e.water_fog_color)) + entry(
            "sky_color"@,
            NbtView::Int(e.sky_color),
        ) + optional_entry("foliage_color"@, int_opt(e.foliage_color)) + optional_entry(
            "grass_color"@,
            int_opt(e.grass_color),
        ) + optional_entry(
            "grass_color_modifier"@,
            match e.grass_color_modifier {
                Some(m) => Some(NbtView::Str(grass_modifier_name(m))),
                None => None,
            },
        ),
    )
}

/// The compound of a biome: its weather fields, then its effects.
pub open spec fn biome_nbt(b: Biome) -> NbtView {
    NbtView::Compound(
        entry("precipitation"@, NbtView::Str(precipitation_name(b.weather.precipitation)))
            + entry("temperature"@, NbtView::Float(b.weather.temperature_bits)) + optional_entry(
            "temperature_modifier"@,
            match b.weather.temperature_modifier {
                Some(m) => Some(NbtView::Str(temperature_modifier_name(m))),
                None => None,
            },
        ) + entry("downfall"@, NbtView::Float(b.weather.downfall_bits)) + entry(
            "effects"@,
            effects_nbt(b.effects),
        ),
    )
}

impl BiomeEffects {
    pub fn to_nbt(&self) -> (r: Nbt)
        ensures
            r@ == effects_nbt(*self),
    {
        let mut v: Vec<(String, Nbt)> = Vec::new();
        let ghost e0 = entries_view(v@);
        assert(e0 =~= Seq::<(Seq<char>, NbtView)>::empty());
        push_entry(&mut v, "fog_color", Nbt::Int(self.fog_color));
        push_entry(&mut v, "water_color", Nbt::Int(self.water_color));
        push_entry(&mut v, "water_fog_color", Nbt::Int(self.water_fog_color));
        push_entry(&mut v, "sky_color", Nbt::Int(self.sky_color));
        push_optional(&mut v, "foliage_color", match self.foliage_color {
            Some(c) => Some(Nbt::Int(c)),
            None => None,
        });
        push_optional(&mut v, "grass_color", match self.grass_color {
            Some(c) => Some(Nbt::Int(c)),
            None => None,
        });
        let modifier = match self.grass_color_modifier {
            Some(BiomeGrassColorModifier::Unmodified) => Some(string_tag("none")),
            Some(BiomeGrassColorModifier::DarkForest) => Some(string_tag("dark_forest")),
            Some(BiomeGrassColorModifier::Swamp) => Some(string_tag("swamp")),
            None => None,
        };
        push_optional(&mut v, "grass_color_modifier", modifier);
        assert(entries_view(v@) =~= effects_nbt(*self)->Compound_0);
        Nbt::Compound(v)
    }
}

impl Biome {
    pub fn to_nbt(&self) -> (r: Nbt)
        ensures
            r@ == biome_nbt(*self),
    {
        let mut v: Vec<(String, Nbt)> = Vec::new();
        assert(entries_view(v@) =~= Seq::<(Seq<char>, NbtView)>::empty());
        let precipitation = match self.weather.precipitation {
            BiomePrecipitation::NoPrecipitation => string_tag("none"),
            BiomePrecipitation::Rain => string_tag("rain"),
            BiomePrecipitation::Snow => string_tag("snow"),
        };
        push_entry(&mut v, "precipitation", precipitation);
        push_entry(&mut v, "temperature", Nbt::Float(self.weather.temperature_bits));
        let modifier = match self.weather.temperature_modifier {
            Some(BiomeTemperatureModifier::Unmodified) => Some(string_tag("none")),
            Some(BiomeTemperatureModifier::Frozen) => Some(string_tag("frozen")),
            None => None,
        };
        push_optional(&mut v, "temperature_modifier", modifier);
        push_entry(&mut v, "downfall", Nbt::Float(self.weather.downfall_bits));
        push_entry(&mut v, "effects", self.effects.to_nbt());
        assert(entries_view(v@) =~= biome_nbt(*self)->Compound_0);
        Nbt::Compound(v)
    }
}

#[derive(Debug, Clone, Copy, PartialEq, Eq, Structural)]
pub enum DimensionEffects {
    Overworld,
    Nether,
    End,
}

pub open spec fn dimension_effects_name(e: DimensionEffects) -> Seq<char> {
    match e {
        DimensionEffects::Overworld => "minecraft:overworld"@,
        DimensionEffects::Nether => "minecraft:the_nether"@,
        DimensionEffects::End => "minecraft:the_end"@,
    }
}

#[derive(Debug, Clone, Copy, PartialEq, Eq, Structural)]
pub enum InfiniteBurnTag {
    Overworld,
    Nether,
    End,
}

pub open spec fn infinite_burn_name(t: InfiniteBurnTag) -> Seq<char> {
    match t {
        InfiniteBurnTag::Overworld => "#minecraft:infiniburn_overworld"@,
        InfiniteBurnTag::Nether => "#minecraft:infiniburn_nether"@,
        InfiniteBurnTag::End => "#minecraft:infiniburn_end"@,
    }
}

#[derive(Debug, Clone, Copy, PartialEq, Eq, Structural)]
pub struct MonsterSettings {
    pub piglin_safe: bool,
    pub raids: bool,
    pub monster_spawn_light_level: i32,
    pub monster_spawn_block_light_limit: i32,
}

/// A dimension type; the coordinate scale is the bits of an `f64` and the
/// ambient light the bits of an `f32`.
#[derive(Debug, Clone, Copy, PartialEq, Eq, Structural)]
pub struct DimensionType {
    pub fixed_time: Option<i64>,
    pub sky_light: bool,
    pub ceiling: bool,
    pub ultra_warm: bool,
    pub natural: bool,
    pub coordinate_scale_bits: u64,
    pub bed_works: bool,
    pub respawn_anchor_works: bool,
    pub min_height: i32,
    pub max_height: i32,
    pub max_logical_height: i32,
    pub infinite_burn_tag: InfiniteBurnTag,
    pub effects: DimensionEffects,
    pub ambient_light_bits: u32,
    pub monster_settings: MonsterSettings,
}

/// The compound of a dimension type, monster settings inlined at the end.
pub open spec fn dimension_nbt(d: DimensionType) -> NbtView {
    NbtView::Compound(dimension_head(d) + dimension_tail(d))
}

/// The first entries of a dimension type: time, sky, ceiling, warmth,
/// nature, scale, beds and anchors.
pub open spec fn dimension_head(d: DimensionType) -> Seq<(Seq<char>, NbtView)> {
        optional_entry(
            "fixed_time"@,
            match d.fixed_time {
                Some(t) => Some(NbtView::Long(t)),
                None => None,
            },
        ) + entry("has_skylight"@, byte_of(d.sky_light)) + entry(
            "has_ceiling"@,
            byte_of(d.ceiling),
        ) + entry("ultrawarm"@, byte_of(d.ultra_warm)) + entry("natural"@, byte_of(d.natural))
            + entry("coordinate_scale"@, NbtView::Double(d.coordinate_scale_bits)) + entry(
            "bed_works"@,
            byte_of(d.bed_works),
        ) + entry("respawn_anchor_works"@, byte_of(d.respawn_anchor_works))
}

/// The remaining entries of a dimension type: heights, infiniburn tag,
/// effects, light and monster settings.
pub open spec fn dimension_tail(d: DimensionType) -> Seq<(Seq<char>, NbtView)> {
        entry(
            "min_y"@,
            NbtView::Int(d.min_height),
        ) + entry("height"@, NbtView::Int(d.max_height)) + entry(
            "logical_height"@,
            NbtView::Int(d.max_logical_height),
        ) + entry("infiniburn"@, NbtView::Str(infinite_burn_name(d.infinite_burn_tag))) + entry(
            "effects"@,
            NbtView::Str(dimension_effects_name(d.effects)),
        ) + entry("ambient_light"@, NbtView::Float(d.ambient_light_bits)) + entry(
            "piglin_safe"@,
            byte_of(d.monster_settings.piglin_safe),
        ) + entry("has_raids"@, byte_of(d.monster_settings.raids)) + entry(
            "monster_spawn_light_level"@,
            NbtView::Int(d.monster_settings.monster_spawn_light_level),
        ) + entry(
            "monster_spawn_block_light_limit"@,
            NbtView::Int(d.monster_settings.monster_spawn_block_light_limit),
        )
}

impl DimensionType {
    #[verifier::rlimit(40)]
    fn push_head(&self, v: &mut Vec<(String, Nbt)>)
        ensures
            entries_view(final(v)@) == entries_view(old(v)@) + dimension_head(*self),
    {
        push_optional(v, "fixed_time", match self.fixed_time {
            Some(t) => Some(Nbt::Long(t)),
            None => None,
        });
        push_entry(v, "has_skylight", bool_tag(self.sky_light));
        push_entry(v, "has_ceiling", bool_tag(self.ceiling));
        push_entry(v, "ultrawarm", bool_tag(self.ultra_warm));
        push_entry(v, "natural", bool_tag(self.natural));
        push_entry(v, "coordinate_scale", Nbt::Double(self.coordinate_scale_bits));
        push_entry(v, "bed_works", bool_tag(self.bed_works));
        push_entry(v, "respawn_anchor_works", bool_tag(self.respawn_anchor_works));
        assert(entries_view(v@) =~= entries_view(old(v)@) + dimension_head(*self));
    }

    #[verifier::rlimit(40)]
    fn push_tail(&self, v: &mut Vec<(String, Nbt)>)
        ensures
            entries_view(final(v)@) == entries_view(old(v)@) + dimension_tail(*self),
    {
        push_entry(v, "min_y", Nbt::Int(self.min_height));
        push_entry(v, "height", Nbt::Int(self.max_height));
        push_entry(v, "logical_height", Nbt::Int(self.max_logical_height));
        let burn = match self.infinite_burn_tag {
            InfiniteBurnTag::Overworld => string_tag("#minecraft:infiniburn_overworld"),
            InfiniteBurnTag::Nether => string_tag("#minecraft:infiniburn_nether"),
            InfiniteBurnTag::End => string_tag("#minecraft:infiniburn_end"),
        };
        push_entry(v, "infiniburn", burn);
        let effects = match self.effects {
            DimensionEffects::Overworld => string_tag("minecraft:overworld"),
            DimensionEffects::Nether => string_tag("minecraft:the_nether"),
            DimensionEffects::End => string_tag("minecraft:the_end"),
        };
        push_entry(v, "effects", effects);
        push_entry(v, "ambient_light", Nbt::Float(self.ambient_light_bits));
        push_entry(v, "piglin_safe", bool_tag(self.monster_settings.piglin_safe));
        push_entry(v, "has_raids", bool_tag(self.monster_settings.raids));
        push_entry(
            v,
            "monster_spawn_light_level",
            Nbt::Int(self.monster_settings.monster_spawn_light_level),
        );
        push_entry(
            v,
            "monster_spawn_block_light_limit",
            Nbt::Int(self.monster_settings.monster_spawn_block_light_limit),
        );
        assert(entries_view(v@) =~= entries_view(old(v)@) + dimension_tail(*self));
    }

    pub fn to_nbt(&self) -> (r: Nbt)
        ensures
            r@ == dimension_nbt(*self),
    {
        let mut v: Vec<(String, Nbt)> = Vec::new();
        assert(entries_view(v@) =~= Seq::<(Seq<char>, NbtView)>::empty());
        self.push_head(&mut v);
        self.push_tail(&mut v);
        assert(entries_view(v@) =~= dimension_head(*self) + dimension_tail(*self));
        Nbt::Compound(v)
    }
}

impl ToNbt for Biome {
    open spec fn nbt_spec(&self) -> NbtView {
        biome_nbt(*self)
    }

    fn element_nbt(&self) -> (r: Nbt) {
        self.to_nbt()
    }
}

impl ToNbt for DimensionType {
    open spec fn nbt_spec(&self) -> NbtView {
        dimension_nbt(*self)
    }

    fn element_nbt(&self) -> (r: Nbt) {
        self.to_nbt()
    }
}

/// The server's own biome: cold, snowy, dark sky.
pub open spec fn tootlands() -> Biome {
    Biome {
        weather: BiomeWeather {
            precipitation: BiomePrecipitation::Snow,
            temperature_bits: 0,
            temperature_modifier: None,
            downfall_bits: 0x3F00_0000,
        },
        effects: BiomeEffects {
            fog_color: 0xc0d8ff,
            water_color: 0x3f76e4,
            water_fog_color: 0x050533,
            sky_color: 0x050533,
            foliage_color: None,
            grass_color: None,
            grass_color_modifier: None,
        },
    }
}

/// The vanilla plains biome, which clients insist on.
pub open spec fn plains() -> Biome {
    Biome {
        weather: BiomeWeather {
            precipitation: BiomePrecipitation::Rain,
            temperature_bits: 0x3F4C_CCCD,
            temperature_modifier: None,
            downfall_bits: 0x3ECC_CCCD,
        },
        effects: BiomeEffects {
            fog_color: 0xc0d8ff,
            water_color: 0x3f76e4,
            water_fog_color: 0x050533,
            sky_color: 0x78a7ff,
            foliage_color: None,
            grass_color: None,
            grass_color_modifier: None,
        },
    }
}

/// The server's only dimension type: an overworld-like one from -64 to 320.
pub open spec fn fediverse() -> DimensionType {
    DimensionType {
        fixed_time: None,
        sky_light: true,
        ceiling: false,
        ultra_warm: false,
        natural: true,
        coordinate_scale_bits: 0x3FF0_0000_0000_0000,
        bed_works: false,
        respawn_anchor_works: false,
        min_height: -64i32,
        max_height: 384,
        max_logical_height: 384,
        infinite_burn_tag: InfiniteBurnTag::Overworld,
        effects: DimensionEffects::Overworld,
        ambient_light_bits: 0,
        monster_settings: MonsterSettings {
            piglin_safe: false,
            raids: false,
            monster_spawn_light_level: 0,
            monster_spawn_block_light_limit: 0,
        },
    }
}

pub open spec fn tootlands_id() -> IdentifierView {
    IdentifierView { namespace: crate::identifier::minestodon_chars(), path: "tootlands"@ }
}

pub open spec fn plains_id() -> IdentifierView {
    IdentifierView { namespace: crate::identifier::minecraft_chars(), path: "plains"@ }
}

pub open spec fn fediverse_id() -> IdentifierView {
    IdentifierView { namespace: crate::identifier::minestodon_chars(), path: "fediverse"@ }
}

/// Registers the server's biome and the plains biome.
pub fn register_biomes(registry: &mut Registry<Biome>) -> (r: Result<(), ProtocolError>)
    requires
        old(registry).initialized(),
        old(registry).wf(),
    ensures
        final(registry).initialized(),
        final(registry).wf(),
        final(registry).name() == old(registry).name(),
        r is Ok <==> !old(registry).keys().contains(tootlands_id()) && !old(
            registry,
        ).keys().contains(plains_id()),
        r is Ok ==> final(registry).keys() == old(registry).keys().push(tootlands_id()).push(
            plains_id(),
        ) && final(registry).values() == old(registry).values().push(tootlands()).push(plains()),
{
    proof {
        reveal_strlit("tootlands");
        reveal_strlit("plains");
        assert(crate::identifier::valid_path("tootlands"@));
        assert(crate::identifier::valid_path("plains"@));
        assert(crate::identifier::minecraft_chars()[4] != crate::identifier::minestodon_chars()[4]);
        assert(tootlands_id() != plains_id());
    }
    let toot = Biome {
        weather: BiomeWeather {
            precipitation: BiomePrecipitation::Snow,
            temperature_bits: 0,
            temperature_modifier: None,
            downfall_bits: 0x3F00_0000,
        },
        effects: BiomeEffects {
            fog_color: 0xc0d8ff,
            water_color: 0x3f76e4,
            water_fog_color: 0x050533,
            sky_color: 0x050533,
            foliage_color: None,
            grass_color: None,
            grass_color_modifier: None,
        },
    };
    let ghost k0 = old(registry).keys();
    registry.register(Identifier::minestodon("tootlands"), toot)?;
    let plains_biome = Biome {
        weather: BiomeWeather {
            precipitation: BiomePrecipitation::Rain,
            temperature_bits: 0x3F4C_CCCD,
            temperature_modifier: None,
            downfall_bits: 0x3ECC_CCCD,
        },
        effects: BiomeEffects {
            fog_color: 0xc0d8ff,
            water_color: 0x3f76e4,
            water_fog_color: 0x050533,
            sky_color: 0x78a7ff,
            foliage_color: None,
            grass_color: None,
            grass_color_modifier: None,
        },
    };
    let res = registry.register(Identifier::minecraft("plains"), plains_biome);
    proof {
        if k0.push(tootlands_id()).contains(plains_id()) {
            let i = choose|i: int| 0 <= i < k0.len() + 1 && k0.push(tootlands_id())[i] == plains_id();
            if i < k0.len() {
                assert(k0[i] == plains_id());
            }
        }
        if k0.contains(plains_id()) {
            let i = choose|i: int| 0 <= i < k0.len() && k0[i] == plains_id();
            assert(k0.push(tootlands_id())[i] == plains_id());
        }
    }
    match res {
        Ok(_) => Ok(()),
        Err(e) => Err(e),
    }
}

/// Registers the server's dimension type.
pub fn register_dimension_types(registry: &mut Registry<DimensionType>) -> (r: Result<
    (),
    ProtocolError,
>)
    requires
        old(registry).initialized(),
        old(registry).wf(),
    ensures
        final(registry).initialized(),
        final(registry).wf(),
        final(registry).name() == old(registry).name(),
        r is Ok <==> !old(registry).keys().contains(fediverse_id()),
        r is Ok ==> final(registry).keys() == old(registry).keys().push(fediverse_id())
            && final(registry).values() == old(registry).values().push(fediverse()),
{
    proof {
        reveal_strlit("fediverse");
        assert(crate::identifier::valid_path("fediverse"@));
    }
    let d = DimensionType {
        fixed_time: None,
        sky_light: true,
        ceiling: false,
        ultra_warm: false,
        natural: true,
        coordinate_scale_bits: 0x3FF0_0000_0000_0000,
        bed_works: false,
        respawn_anchor_works: false,
        min_height: -64,
        max_height: 384,
        max_logical_height: 384,
        infinite_burn_tag: InfiniteBurnTag::Overworld,
        effects: DimensionEffects::Overworld,
        ambient_light_bits: 0,
        monster_settings: MonsterSettings {
            piglin_safe: false,
            raids: false,
            monster_spawn_light_level: 0,
            monster_spawn_block_light_limit: 0,
        },
    };
    match registry.register(Identifier::minestodon("fediverse"), d) {
        Ok(_) => Ok(()),
        Err(e) => Err(e),
    }
}

} // verus!
