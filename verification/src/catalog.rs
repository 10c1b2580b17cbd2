//! The built-in catalogue: FastFlags known to be on Roblox's allowlist,
//! the presets, and the cursor images that can be replaced.

use vstd::prelude::*;
use crate::keyed_map::KeyedMap;
use crate::number::nat_text;
use crate::value::{flag_text, FlagValue, FlagView};

verus! {

/// A FastFlag of the library: its name, the text of its default value, and
/// a short explanation.
#[derive(Debug)]
pub struct KnownFlag {
    pub name: String,
    pub default_text: String,
    pub tip: String,
}

/// The `i`-th known flag: name, default text, explanation.
pub open spec fn known_flag_spec(i: int) -> (Seq<char>, Seq<char>, Seq<char>) {
    if i == 0 {
        ("DFIntCSGLevelOfDetailSwitchingDistance"@, "400"@, "Master LOD culling distance for CSG models. Lower = better FPS."@)
    } else if i == 1 {
        ("DFIntCSGLevelOfDetailSwitchingDistanceL12"@, "200"@, "LOD distance for Graphics Quality 1-2."@)
    } else if i == 2 {
        ("DFIntCSGLevelOfDetailSwitchingDistanceL23"@, "350"@, "LOD distance for Graphics Quality 2-3."@)
    } else if i == 3 {
        ("DFIntCSGLevelOfDetailSwitchingDistanceL34"@, "500"@, "LOD distance for Graphics Quality 3-4."@)
    } else if i == 4 {
        ("FIntDebugForceMSAASamples"@, "2"@, "Forces MSAA anti-aliasing (1, 2 or 4)."@)
    } else if i == 5 {
        ("DFFlagDebugPauseVoxelizer"@, "true"@, "Pauses voxel lighting/shadows/AO. Big FPS boost."@)
    } else if i == 6 {
        ("FFlagDebugSkyGray"@, "false"@, "Replaces the skybox with flat gray to remove sky shader cost."@)
    } else if i == 7 {
        ("DFIntDebugFRMQualityLevelOverride"@, "10"@, "Overrides the graphics level slider (0-21)."@)
    } else if i == 8 {
        ("FIntFRMMaxGrassDistance"@, "200"@, "Max render distance for grass. 0 disables grass."@)
    } else if i == 9 {
        ("FIntFRMMinGrassDistance"@, "0"@, "Distance where grass starts rendering."@)
    } else if i == 10 {
        ("DFFlagTextureQualityOverrideEnabled"@, "true"@, "Enables manual control over texture resolution."@)
    } else if i == 11 {
        ("DFIntTextureQualityOverride"@, "2"@, "Texture quality: 0 (lowest) to 3 (max). 3 may crash GPUs with <=4GB VRAM."@)
    } else {
        ("FIntGrassMovementReducedMotionFactor"@, "50"@, "Grass sway intensity. 0 = frozen."@)
    }
}

/// The number of known flags.
pub open spec fn known_flag_count() -> nat {
    13
}

/// The library of known flags, in the order they are offered.
pub fn known_fflags() -> (r: Vec<KnownFlag>)
    ensures
        r@.len() == known_flag_count(),
        forall|i: int|
            0 <= i < r@.len() ==> ((#[trigger] r@[i]).name@, r@[i].default_text@, r@[i].tip@)
                == known_flag_spec(i),
{
    let mut r: Vec<KnownFlag> = Vec::new();
    r.push(KnownFlag { name: String::from_str("DFIntCSGLevelOfDetailSwitchingDistance"), default_text: String::from_str("400"), tip: String::from_str("Master LOD culling distance for CSG models. Lower = better FPS.") });
    r.push(KnownFlag { name: String::from_str("DFIntCSGLevelOfDetailSwitchingDistanceL12"), default_text: String::from_str("200"), tip: String::from_str("LOD distance for Graphics Quality 1-2.") });
    r.push(KnownFlag { name: String::from_str("DFIntCSGLevelOfDetailSwitchingDistanceL23"), default_text: String::from_str("350"), tip: String::from_str("LOD distance for Graphics Quality 2-3.") });
    r.push(KnownFlag { name: String::from_str("DFIntCSGLevelOfDetailSwitchingDistanceL34"), default_text: String::from_str("500"), tip: String::from_str("LOD distance for Graphics Quality 3-4.") });
    r.push(KnownFlag { name: String::from_str("FIntDebugForceMSAASamples"), default_text: String::from_str("2"), tip: String::from_str("Forces MSAA anti-aliasing (1, 2 or 4).") });
    r.push(KnownFlag { name: String::from_str("DFFlagDebugPauseVoxelizer"), default_text: String::from_str("true"), tip: String::from_str("Pauses voxel lighting/shadows/AO. Big FPS boost.") });
    r.push(KnownFlag { name: String::from_str("FFlagDebugSkyGray"), default_text: String::from_str("false"), tip: String::from_str("Replaces the skybox with flat gray to remove sky shader cost.") });
    r.push(KnownFlag { name: String::from_str("DFIntDebugFRMQualityLevelOverride"), default_text: String::from_str("10"), tip: String::from_str("Overrides the graphics level slider (0-21).") });
    r.push(KnownFlag { name: String::from_str("FIntFRMMaxGrassDistance"), default_text: String::from_str("200"), tip: String::from_str("Max render distance for grass. 0 disables grass.") });
    r.push(KnownFlag { name: String::from_str("FIntFRMMinGrassDistance"), default_text: String::from_str("0"), tip: String::from_str("Distance where grass starts rendering.") });
    r.push(KnownFlag { name: String::from_str("DFFlagTextureQualityOverrideEnabled"), default_text: String::from_str("true"), tip: String::from_str("Enables manual control over texture resolution.") });
    r.push(KnownFlag { name: String::from_str("DFIntTextureQualityOverride"), default_text: String::from_str("2"), tip: String::from_str("Texture quality: 0 (lowest) to 3 (max). 3 may crash GPUs with <=4GB VRAM.") });
    r.push(KnownFlag { name: String::from_str("FIntGrassMovementReducedMotionFactor"), default_text: String::from_str("50"), tip: String::from_str("Grass sway intensity. 0 = frozen.") });
    r
}

/// A preset: a name and the flags it sets.
#[derive(Debug)]
pub struct Preset {
    pub name: String,
    pub flags: KeyedMap<FlagValue>,
}

/// The flags of preset 0 ("Low-End / VRAM Fix").
pub open spec fn preset_flags_0() -> Map<Seq<char>, FlagView> {
    map![
        "DFFlagTextureQualityOverrideEnabled"@ => FlagView::Bool(true),
        "DFIntTextureQualityOverride"@ => FlagView::Int(1),
        "DFIntCSGLevelOfDetailSwitchingDistance"@ => FlagView::Int(100),
        "DFIntCSGLevelOfDetailSwitchingDistanceL12"@ => FlagView::Int(75),
        "DFIntCSGLevelOfDetailSwitchingDistanceL23"@ => FlagView::Int(100),
        "DFIntCSGLevelOfDetailSwitchingDistanceL34"@ => FlagView::Int(150),
        "DFFlagDebugPauseVoxelizer"@ => FlagView::Bool(true),
        "FIntFRMMaxGrassDistance"@ => FlagView::Int(0),
        "FIntGrassMovementReducedMotionFactor"@ => FlagView::Int(0),
        "FFlagDebugSkyGray"@ => FlagView::Bool(true),
    ]
}

/// The flags of preset 1 ("Balanced / Mid-Range").
pub open spec fn preset_flags_1() -> Map<Seq<char>, FlagView> {
    map![
        "DFFlagTextureQualityOverrideEnabled"@ => FlagView::Bool(true),
        "DFIntTextureQualityOverride"@ => FlagView::Int(2),
        "DFIntCSGLevelOfDetailSwitchingDistance"@ => FlagView::Int(400),
        "DFIntCSGLevelOfDetailSwitchingDistanceL12"@ => FlagView::Int(200),
        "DFIntCSGLevelOfDetailSwitchingDistanceL23"@ => FlagView::Int(350),
        "DFIntCSGLevelOfDetailSwitchingDistanceL34"@ => FlagView::Int(500),
        "FIntDebugForceMSAASamples"@ => FlagView::Int(2),
        "FIntFRMMaxGrassDistance"@ => FlagView::Int(200),
        "FIntGrassMovementReducedMotionFactor"@ => FlagView::Int(50),
    ]
}

/// The flags of preset 2 ("Maximum Fidelity").
pub open spec fn preset_flags_2() -> Map<Seq<char>, FlagView> {
    map![
        "DFFlagTextureQualityOverrideEnabled"@ => FlagView::Bool(true),
        "DFIntTextureQualityOverride"@ => FlagView::Int(3),
        "DFIntCSGLevelOfDetailSwitchingDistance"@ => FlagView::Int(1000),
        "DFIntCSGLevelOfDetailSwitchingDistanceL34"@ => FlagView::Int(1000),
        "FIntDebugForceMSAASamples"@ => FlagView::Int(4),
        "DFIntDebugFRMQualityLevelOverride"@ => FlagView::Int(21),
    ]
}

/// The presets, in the order they are offered.
pub fn presets() -> (r: Vec<Preset>)
    ensures
        r@.len() == 3,
        r@[0].name@ == "Low-End / VRAM Fix"@,
        r@[0].flags@ == preset_flags_0(),
        r@[1].name@ == "Balanced / Mid-Range"@,
        r@[1].flags@ == preset_flags_1(),
        r@[2].name@ == "Maximum Fidelity"@,
        r@[2].flags@ == preset_flags_2(),
        forall|i: int| 0 <= i < r@.len() ==> (#[trigger] r@[i]).flags.wf(),
{
    let mut r: Vec<Preset> = Vec::new();
    let mut m0: KeyedMap<FlagValue> = KeyedMap::new();
    m0.insert(String::from_str("DFFlagTextureQualityOverrideEnabled"), FlagValue::Bool(true));
    m0.insert(String::from_str("DFIntTextureQualityOverride"), FlagValue::Int(1));
    m0.insert(String::from_str("DFIntCSGLevelOfDetailSwitchingDistance"), FlagValue::Int(100));
    m0.insert(String::from_str("DFIntCSGLevelOfDetailSwitchingDistanceL12"), FlagValue::Int(75));
    m0.insert(String::from_str("DFIntCSGLevelOfDetailSwitchingDistanceL23"), FlagValue::Int(100));
    m0.insert(String::from_str("DFIntCSGLevelOfDetailSwitchingDistanceL34"), FlagValue::Int(150));
    m0.insert(String::from_str("DFFlagDebugPauseVoxelizer"), FlagValue::Bool(true));
    m0.insert(String::from_str("FIntFRMMaxGrassDistance"), FlagValue::Int(0));
    m0.insert(String::from_str("FIntGrassMovementReducedMotionFactor"), FlagValue::Int(0));
    m0.insert(String::from_str("FFlagDebugSkyGray"), FlagValue::Bool(true));
    assert(m0@ =~= preset_flags_0());
    r.push(Preset { name: String::from_str("Low-End / VRAM Fix"), flags: m0 });
    let mut m1: KeyedMap<FlagValue> = KeyedMap::new();
    m1.insert(String::from_str("DFFlagTextureQualityOverrideEnabled"), FlagValue::Bool(true));
    m1.insert(String::from_str("DFIntTextureQualityOverride"), FlagValue::Int(2));
    m1.insert(String::from_str("DFIntCSGLevelOfDetailSwitchingDistance"), FlagValue::Int(400));
    m1.insert(String::from_str("DFIntCSGLevelOfDetailSwitchingDistanceL12"), FlagValue::Int(200));
    m1.insert(String::from_str("DFIntCSGLevelOfDetailSwitchingDistanceL23"), FlagValue::Int(350));
    m1.insert(String::from_str("DFIntCSGLevelOfDetailSwitchingDistanceL34"), FlagValue::Int(500));
    m1.insert(String::from_str("FIntDebugForceMSAASamples"), FlagValue::Int(2));
    m1.insert(String::from_str("FIntFRMMaxGrassDistance"), FlagValue::Int(200));
    m1.insert(String::from_str("FIntGrassMovementReducedMotionFactor"), FlagValue::Int(50));
    assert(m1@ =~= preset_flags_1());
    r.push(Preset { name: String::from_str("Balanced / Mid-Range"), flags: m1 });
    let mut m2: KeyedMap<FlagValue> = KeyedMap::new();
    m2.insert(String::from_str("DFFlagTextureQualityOverrideEnabled"), FlagValue::Bool(true));
    m2.insert(String::from_str("DFIntTextureQualityOverride"), FlagValue::Int(3));
    m2.insert(String::from_str("DFIntCSGLevelOfDetailSwitchingDistance"), FlagValue::Int(1000));
    m2.insert(String::from_str("DFIntCSGLevelOfDetailSwitchingDistanceL34"), FlagValue::Int(1000));
    m2.insert(String::from_str("FIntDebugForceMSAASamples"), FlagValue::Int(4));
    m2.insert(String::from_str("DFIntDebugFRMQualityLevelOverride"), FlagValue::Int(21));
    assert(m2@ =~= preset_flags_2());
    r.push(Preset { name: String::from_str("Maximum Fidelity"), flags: m2 });
    r
}

/// A cursor image of Sober that can be replaced: its file name, and the
/// title and explanation shown for it.
#[derive(Debug)]
pub struct CursorTarget {
    pub file_name: String,
    pub title: String,
    pub subtitle: String,
}

/// The cursor images that can be replaced, in the order they are shown.
pub fn cursor_targets() -> (r: Vec<CursorTarget>)
    ensures
        r@.len() == 3,
        r@[0].file_name@ == "ArrowCursor.png"@ && r@[0].title@ == "Pointer"@ && r@[0].subtitle@ == "The default arrow cursor"@,
        r@[1].file_name@ == "ArrowFarCursor.png"@ && r@[1].title@ == "Pointer (zoomed out)"@ && r@[1].subtitle@ == "Used when the camera is far from your character"@,
        r@[2].file_name@ == "IBeamCursor.png"@ && r@[2].title@ == "Text Cursor"@ && r@[2].subtitle@ == "Shown when hovering over text fields"@,
{
    let mut r: Vec<CursorTarget> = Vec::new();
    r.push(CursorTarget { file_name: String::from_str("ArrowCursor.png"), title: String::from_str("Pointer"), subtitle: String::from_str("The default arrow cursor") });
    r.push(CursorTarget { file_name: String::from_str("ArrowFarCursor.png"), title: String::from_str("Pointer (zoomed out)"), subtitle: String::from_str("Used when the camera is far from your character") });
    r.push(CursorTarget { file_name: String::from_str("IBeamCursor.png"), title: String::from_str("Text Cursor"), subtitle: String::from_str("Shown when hovering over text fields") });
    r
}

/// The flags of the `i`-th preset.
pub open spec fn preset_flags(i: int) -> Map<Seq<char>, FlagView> {
    if i == 0 {
        preset_flags_0()
    } else if i == 1 {
        preset_flags_1()
    } else {
        preset_flags_2()
    }
}

/// Whether a flag's name marks it as a dynamic boolean flag.
pub open spec fn is_dynamic_boolean_flag(name: Seq<char>) -> bool {
    name.len() >= 6 && name.take(6) == "DFFlag"@
}

/// What tells the flag names apart: their lengths, and a letter where two
/// have the same length.
proof fn lemma_flag_names()
    ensures
        "DFIntCSGLevelOfDetailSwitchingDistance"@.len() == 38,
        "DFIntCSGLevelOfDetailSwitchingDistanceL12"@.len() == 41,
        "DFIntCSGLevelOfDetailSwitchingDistanceL23"@.len() == 41,
        "DFIntCSGLevelOfDetailSwitchingDistanceL34"@.len() == 41,
        "FIntDebugForceMSAASamples"@.len() == 25,
        "DFFlagDebugPauseVoxelizer"@.len() == 25,
        "FFlagDebugSkyGray"@.len() == 17,
        "DFIntDebugFRMQualityLevelOverride"@.len() == 33,
        "FIntFRMMaxGrassDistance"@.len() == 23,
        "FIntFRMMinGrassDistance"@.len() == 23,
        "DFFlagTextureQualityOverrideEnabled"@.len() == 35,
        "DFIntTextureQualityOverride"@.len() == 27,
        "FIntGrassMovementReducedMotionFactor"@.len() == 36,
        "DFIntCSGLevelOfDetailSwitchingDistanceL12"@[39] == '1',
        "DFIntCSGLevelOfDetailSwitchingDistanceL23"@[39] == '2',
        "DFIntCSGLevelOfDetailSwitchingDistanceL34"@[39] == '3',
        "FIntDebugForceMSAASamples"@[0] == 'F',
        "DFFlagDebugPauseVoxelizer"@[0] == 'D',
        "FIntFRMMaxGrassDistance"@[8] == 'a',
        "FIntFRMMinGrassDistance"@[8] == 'i',
        "DFIntCSGLevelOfDetailSwitchingDistance"@[2] == 'I',
        "DFIntCSGLevelOfDetailSwitchingDistanceL12"@[2] == 'I',
        "DFIntCSGLevelOfDetailSwitchingDistanceL23"@[2] == 'I',
        "DFIntCSGLevelOfDetailSwitchingDistanceL34"@[2] == 'I',
        "DFIntDebugFRMQualityLevelOverride"@[2] == 'I',
        "DFIntTextureQualityOverride"@[2] == 'I',
        "FFlagDebugSkyGray"@[0] == 'F',
        "FIntFRMMaxGrassDistance"@[0] == 'F',
        "FIntFRMMinGrassDistance"@[0] == 'F',
        "FIntGrassMovementReducedMotionFactor"@[0] == 'F',
        "DFFlagDebugPauseVoxelizer"@.take(6) == "DFFlag"@,
        "DFFlagTextureQualityOverrideEnabled"@.take(6) == "DFFlag"@,
{
    reveal_strlit("DFIntCSGLevelOfDetailSwitchingDistance");
    reveal_strlit("DFIntCSGLevelOfDetailSwitchingDistanceL12");
    reveal_strlit("DFIntCSGLevelOfDetailSwitchingDistanceL23");
    reveal_strlit("DFIntCSGLevelOfDetailSwitchingDistanceL34");
    reveal_strlit("FIntDebugForceMSAASamples");
    reveal_strlit("DFFlagDebugPauseVoxelizer");
    reveal_strlit("FFlagDebugSkyGray");
    reveal_strlit("DFIntDebugFRMQualityLevelOverride");
    reveal_strlit("FIntFRMMaxGrassDistance");
    reveal_strlit("FIntFRMMinGrassDistance");
    reveal_strlit("DFFlagTextureQualityOverrideEnabled");
    reveal_strlit("DFIntTextureQualityOverride");
    reveal_strlit("FIntGrassMovementReducedMotionFactor");
    reveal_strlit("DFFlag");
    assert("DFFlagDebugPauseVoxelizer"@.take(6) =~= "DFFlag"@);
    assert("DFFlagTextureQualityOverrideEnabled"@.take(6) =~= "DFFlag"@);
}

/// The decimal writing of the values the "Balanced" preset gives.
proof fn lemma_balanced_texts()
    ensures
        nat_text(400) == "400"@,
        nat_text(200) == "200"@,
        nat_text(350) == "350"@,
        nat_text(500) == "500"@,
        nat_text(2) == "2"@,
        nat_text(50) == "50"@,
{
    reveal_with_fuel(nat_text, 4);
    reveal_strlit("400");
    assert(nat_text(400) =~= "400"@);
    reveal_strlit("200");
    assert(nat_text(200) =~= "200"@);
    reveal_strlit("350");
    assert(nat_text(350) =~= "350"@);
    reveal_strlit("500");
    assert(nat_text(500) =~= "500"@);
    reveal_strlit("2");
    assert(nat_text(2) =~= "2"@);
    reveal_strlit("50");
    assert(nat_text(50) =~= "50"@);
}

/// Every preset that sets a texture quality also switches the texture
/// quality override on, so applying any preset to any flags leaves the
/// override on with the preset's level.
pub proof fn law_presets_turn_texture_override_on(i: int, flags: Map<Seq<char>, FlagView>)
    requires
        0 <= i < 3,
    ensures
        preset_flags(i).dom().contains("DFIntTextureQualityOverride"@),
        preset_flags(i).dom().contains("DFFlagTextureQualityOverrideEnabled"@),
        preset_flags(i)["DFFlagTextureQualityOverrideEnabled"@] == FlagView::Bool(true),
        flags.union_prefer_right(preset_flags(i))["DFFlagTextureQualityOverrideEnabled"@]
            == FlagView::Bool(true),
        flags.union_prefer_right(preset_flags(i))["DFIntTextureQualityOverride"@]
            == preset_flags(i)["DFIntTextureQualityOverride"@],
{
    lemma_flag_names();
    reveal_strlit("DFFlag");
}

/// The presets rise in fidelity: a later preset sets a higher texture
/// quality and a longer level-of-detail distance than an earlier one.
pub proof fn law_presets_rise_in_fidelity(i: int, j: int)
    requires
        0 <= i < j < 3,
    ensures
        (preset_flags(i)["DFIntTextureQualityOverride"@], preset_flags(j)["DFIntTextureQualityOverride"@])
            matches (FlagView::Int(a), FlagView::Int(b)) && a < b,
        (preset_flags(i)["DFIntCSGLevelOfDetailSwitchingDistance"@], preset_flags(j)["DFIntCSGLevelOfDetailSwitchingDistance"@])
            matches (FlagView::Int(a), FlagView::Int(b)) && a < b,
{
    lemma_flag_names();
    reveal_strlit("DFFlag");
}

/// A known flag's default is the value the presets give it, shown as the
/// editor shows it: for every flag the "Balanced" preset sets, and for the
/// dynamic boolean flags wherever a preset sets them.
pub proof fn law_library_defaults_match_presets(i: int, j: int)
    requires
        0 <= i < known_flag_count(),
        0 <= j < 3,
        preset_flags(j).dom().contains(known_flag_spec(i).0),
        j == 1 || is_dynamic_boolean_flag(known_flag_spec(i).0),
    ensures
        known_flag_spec(i).1 == flag_text(preset_flags(j)[known_flag_spec(i).0]),
{
    lemma_flag_names();
    lemma_balanced_texts();
    reveal_strlit("DFFlag");
    reveal_strlit("true");
    reveal_strlit("false");
    assert("DFFlag"@[2] == 'F' && "DFFlag"@[0] == 'D');
    let name = known_flag_spec(i).0;
    if i == 0 {
    } else if i == 1 {
    } else if i == 2 {
    } else if i == 3 {
    } else if i == 4 {
    } else if i == 5 {
    } else if i == 6 {
    } else if i == 7 {
    } else if i == 8 {
    } else if i == 9 {
    } else if i == 10 {
    } else if i == 11 {
    } else {
    }
}

} // verus!
