//! Definitions that are built by calls.

use std::collections::HashMap;

use def_compiler::build::emit::{build_nulldefs, Entries};
use def_compiler::crc32::crc_text;
use def_compiler::defs::field::EnumField;
use def_compiler::defs::screens::{UiDef, UiParts};
use def_compiler::lower::anim::Component;
use def_compiler::lower::controls::ControlEnums;
use def_compiler::lower::def::{lower_def, DefBody, DefType, DefTypes};
use def_compiler::lower::env::{Fields, LowerEnv, LowerError, Text};
use def_compiler::lower::extra::Extra;
use def_compiler::lower::morph::{build_tex_morphs, TexMeshCall};
use def_compiler::lower::opinions::{Frequency, MatchKind};
use def_compiler::lower::ui::lower_ui;
use def_compiler::names::NamesBuilder;
use def_compiler::reader::DefReaderError;
use def_compiler::text::ast::{Item, Statement};
use def_compiler::text::base::{FileId, Spanned};
use def_compiler::text::parser::parse_source;
use def_compiler::text::symbols::SymbolTable;
use def_compiler::value::{find_member, number_of, Compound, Member, Record, Scalar, Value};

/// An environment with a few strings.
struct Strings {
    offsets: HashMap<&'static str, u32>,
}

impl LowerEnv for Strings {
    fn index_of(&self, _name: Text) -> Option<u32> {
        None
    }

    fn offset_of(&self, _string: Text) -> Option<u32> {
        None
    }

    fn with_reactions(&self, fields: Fields) -> Fields {
        fields
    }

    fn with_opinions(&self, fields: Fields) -> Fields {
        fields
    }

    fn def_index(&self, _name: &str) -> Option<u32> {
        None
    }

    fn def_string_offset(&self, string: &str) -> Option<u32> {
        self.offsets.get(string).copied()
    }

    /// Doubles the first field.
    fn derive_binary_reactions(&self, record: Record) -> Record {
        let mut record = record;
        let n = number_of(&record.fields[0].value) as i32;
        record.fields[0].value = Value::Scalar(Scalar::I32(2 * n));
        record
    }

    /// Adds one to the first field.
    fn derive_binary_opinions(&self, record: Record) -> Record {
        let mut record = record;
        let n = number_of(&record.fields[0].value) as i32;
        record.fields[0].value = Value::Scalar(Scalar::I32(n + 1));
        record
    }
}

fn strings(offsets: &[(&'static str, u32)]) -> Strings {
    Strings { offsets: offsets.iter().copied().collect() }
}

fn body_of(statements: &str) -> Vec<Spanned<Statement>> {
    let text = format!("#definition X Y\n{statements}\n#end_definition\n");
    match parse_source(&text, FileId(0)).unwrap().items.remove(0) {
        Item::Definition(d) => d.value.body,
        _ => panic!("no definition"),
    }
}

fn types(name: &str, kind: &str) -> DefTypes {
    DefTypes {
        types: vec![DefType {
            name: name.to_string(),
            default: DefBody {
                kind: kind.to_string(),
                record: Record { fields: vec![] },
                extra: Extra::Nothing,
            },
        }],
        controls: ControlEnums {
            game_action: vec![1, 2],
            controller_type: vec![1, 2, 3],
            input_key: vec![0, 30],
            xbox_button: vec![0, 4],
            mouse_button: vec![0, 1],
        },
    }
}

fn lower(name: &str, kind: &str, statements: &str, env: &Strings) -> Result<Extra, LowerError> {
    let symbols = SymbolTable::new();
    lower_def(&types(name, kind), name, None, &body_of(statements), &symbols, env)
        .map(|(body, _)| body.extra)
}

fn words(data: &[u8]) -> Vec<u32> {
    data.chunks(4).map(|c| u32::from_le_bytes(c.try_into().unwrap())).collect()
}

#[test]
fn animations_are_added_grouped_and_removed() {
    let env = strings(&[("walk", 11), ("hit", 12), ("group", 13)]);
    let statements = "Animation.StartGroup(\"group\"); \
                      Animation.Add(\"walk\", 5, Delay(3), TransTime(7)); \
                      Animation.EndGroup(); \
                      Animation.AddCombat(\"hit\", 6); \
                      Animation.Add(\"gone\", 1); \
                      Animation.Remove(\"gone\");";
    let extra = lower("CAnimatingObjectDef", "AnimatingObjectDef", statements, &env).unwrap();
    let anims = match extra {
        Extra::Animations(v) => v,
        _ => panic!("no animations"),
    };
    let mut keys = vec![crc_text("walk"), crc_text("hit")];
    keys.sort();
    assert_eq!(anims.iter().map(|a| a.key).collect::<Vec<_>>(), keys);
    let walk = &anims.iter().find(|a| a.key == crc_text("walk")).unwrap().entry;
    assert_eq!((walk.bank_index, walk.anim_name, walk.group_name), (5, 11, 13));
    assert!(matches!(
        walk.components[..],
        [Component::Transition { time: 7 }, Component::Delay { delay: 3 }]
    ));
    // A combat animation has a transition and a delay in any case.
    let hit = &anims.iter().find(|a| a.key == crc_text("hit")).unwrap().entry;
    assert_eq!((hit.bank_index, hit.anim_name, hit.group_name), (6, 12, -1));
    assert!(matches!(
        hit.components[..],
        [Component::Transition { time: 1 }, Component::Delay { delay: 0 }]
    ));
}

#[test]
fn texture_morphs_are_grouped_by_what_they_replace() {
    let call = |n: i32, original: i32, replacements: &[i32]| TexMeshCall {
        mesh_id: 9,
        n,
        original,
        replacements: replacements.to_vec(),
    };
    let other = TexMeshCall { mesh_id: 1, n: 1, original: 1, replacements: vec![1] };
    let calls = vec![call(2, 50, &[60, 61]), call(0, 40, &[70]), other];
    let morphs = build_tex_morphs(9, &calls);
    let found: Vec<(u32, i32, i32)> =
        morphs.iter().map(|m| (m.key, m.new_texture, m.group_id)).collect();
    // The first key is the size of the table in bytes.
    assert_eq!(found, [(36, 40, 70), (0, 50, 60), (1, 50, 61)]);
    assert_eq!(words(&morphs[0].data()), [40, 70]);
    assert!(build_tex_morphs(7, &calls).is_empty());
}

#[test]
fn a_creature_is_built_by_calls() {
    let statements = "RandomAppearanceMorph.AddBodyPart(0, 3, 100, 101); \
                      RandomAppearanceMorph.AddBodyPart(2, 4, 200); \
                      RandomAppearanceMorph.AddTextureToMesh(100, 1, 50, 60); \
                      Expressions.Add(8, 80); Expressions.Add(2, 20); \
                      WoundMorphs.AddWound(1, 2, 3, 4, 5, 6, 7, 9); \
                      WoundMorphs.AddWoundAndScar(1, 2, 3, 4, 5, 6, 7, 8, 9, 0.5);";
    match lower("CCreatureDef", "CreatureDef", statements, &strings(&[])).unwrap() {
        Extra::Creature { appearance, expressions, wounds } => {
            let heads: Vec<(i32, i32, usize)> = appearance
                .head
                .iter()
                .map(|m| (m.mesh_id, m.texture_id, m.texture_morphs.len()))
                .collect();
            assert_eq!(heads, [(100, 3, 1), (101, 3, 0)]);
            assert_eq!(appearance.legs[0].mesh_id, 200);
            assert!(appearance.torso.is_empty());
            assert_eq!(appearance.max_texture_group, 1);
            let faces: Vec<(i32, i32)> =
                expressions.iter().map(|e| (e.type_, e.anim_index)).collect();
            assert_eq!(faces, [(2, 20), (8, 80)]);
            assert_eq!(words(&wounds[0].data), [1, 2, 3, 4, 5, 6, 7, 0, 9, 0]);
            assert_eq!(words(&wounds[1].data), [1, 2, 3, 4, 5, 6, 7, 8, 9, 0x3f000000]);
        },
        _ => panic!("no creature"),
    }
}

#[test]
fn sounds_are_ordered_by_event() {
    let env = strings(&[("Loud", 70)]);
    let statements = "SoundMap.AddSingle(\"Hit\", 4); SoundMap.AddPair(\"Step\", 5, 9); \
                      SoundMap.AddCriteria(\"Hit\", \"Loud\"); SoundMap.AddCriteria(\"Step\", \"?\");";
    match lower("CEntitySoundDef", "EntitySoundDef", statements, &env).unwrap() {
        Extra::Sounds { ranges, criteria } => {
            let mut expected = vec![(crc_text("Hit"), 4, 4), (crc_text("Step"), 5, 9)];
            expected.sort();
            let found: Vec<(u32, u32, u32)> =
                ranges.iter().map(|r| (r.key, r.first_sound, r.last_sound)).collect();
            assert_eq!(found, expected);
            let mut expected = vec![(crc_text("Hit"), 70), (crc_text("Step"), -1)];
            expected.sort();
            let found: Vec<(u32, i32)> = criteria.iter().map(|c| (c.key, c.criterion)).collect();
            assert_eq!(found, expected);
        },
        _ => panic!("no sounds"),
    }
}

#[test]
fn the_morphs_of_the_hero_are_gathered() {
    let env = strings(&[("HEAD", 5)]);
    let statements = "TextureMorphs.Add(1, 2, 3, 4, 5); \
                      ParticleMorphs.Add(7, 8, 0.5, 1.0, 9, \"HEAD\", 10); \
                      IdleParticleMorphs.AddBlend(7, 8, 6, 0.5, 1.0, 9, \"HEAD\", 10);";
    match lower("CHeroMorphDef", "HeroMorphDef", statements, &env).unwrap() {
        Extra::HeroMorphs { textures, particles, idle_particles } => {
            let t = textures[0];
            assert_eq!((t.texture_layer, t.morph_type, t.replacing_texture_index), (1, 2, 3));
            assert_eq!((t.bank_index, t.blend), (4, 5));
            assert_eq!(particles[0].morph_type, 7);
            assert_eq!(
                words(&particles[0].data),
                [7, 0, 9, 5, 10, 8, 0, 0x3f000000, 0x3f800000]
            );
            assert_eq!(
                words(&idle_particles[0].data),
                [7, 1, 9, 5, 10, 8, 6, 0x3f000000, 0x3f800000]
            );
        },
        _ => panic!("no morphs"),
    }
}

#[test]
fn two_traits_of_a_personality_change_places() {
    let statements = "PersonalityTraits.Set(1, 1.0, 2.0, 3.0, 4.0, 5.0, 6.0, 7.0, 8.0, 9.0); \
                      PersonalityTraits.Set(5, 1.0);";
    match lower("OPINION_PERSONALITY", "OpinionPersonalityDef", statements, &strings(&[])).unwrap()
    {
        Extra::Traits(v) => {
            assert_eq!(v.len(), 45);
            let second: Vec<f32> = v[9..18].iter().map(|x| f32::from_bits(x.bits)).collect();
            assert_eq!(second, [1.0, 2.0, 3.0, 4.0, 5.0, 6.0, 8.0, 7.0, 9.0]);
        },
        _ => panic!("no traits"),
    }
}

#[test]
fn reactions_have_matches_and_frequencies() {
    let statements = "Matches.Add(3, MRBlob(1.0, 2.0, 3.0, 4.0, 5.0, 6.0, 7.0)); \
                      Matches.Add(4, Pyramid(8, 1.0, 2.0, 3.0, 9, 4.0, 5.0, 6.0)); \
                      Frequency.Set(78, Linear(1.0, 2.0)); \
                      Frequency.Set(79, Linear(1.0, 2.0)); \
                      Frequency.Set(2, ControlledCount(3.0, 4.0, 5.0, TRUE));";
    let name = "OPINION_REACTION_MANAGER";
    match lower(name, "OpinionReactionManagerDef", statements, &strings(&[])).unwrap() {
        Extra::Reactions { matches, frequencies } => {
            assert_eq!(matches[0].kind, MatchKind::Blob);
            assert_eq!((matches[0].reaction_type, matches[0].numbers.len()), (3, 7));
            assert_eq!(matches[1].kind, MatchKind::Pyramid);
            assert_eq!((matches[1].x_axis, matches[1].y_axis), (8, 9));
            let numbers: Vec<f32> =
                matches[1].numbers.iter().map(|x| f32::from_bits(x.bits)).collect();
            assert_eq!(numbers, [1.0, 2.0, 3.0, 4.0, 5.0, 6.0]);
            // There are 79 reactions.
            assert_eq!(frequencies.len(), 2);
            assert_eq!(frequencies[0].reaction, 78);
            assert!(matches!(
                frequencies[1].frequency,
                Frequency::ControlledCount { allow_repeats: true, .. }
            ));
        },
        _ => panic!("no reactions"),
    }
}

#[test]
fn a_control_fills_the_slot_of_its_controller() {
    let statements = "Controls.Add(CActionInputControl(1, 2, 30)); \
                      Controls.Add(CActionInputControl(2, 1, 4, C2DCoordF(1.0, 0.5))); \
                      Controls.Add(CActionInputControl(2, 3, 1)); ToggleSneak TRUE;";
    match lower("CONTROL_SCHEME", "ControlsDef", statements, &strings(&[])).unwrap() {
        Extra::Controls(c) => {
            let slots: Vec<(i32, i32, i32)> = c
                .controls
                .iter()
                .map(|a| (a.keyboard_key, a.xbox_button, a.mouse_button))
                .collect();
            assert_eq!(slots, [(30, 0, 0), (0, 4, 0), (0, 0, 1)]);
            assert_eq!(f32::from_bits(c.controls[1].direction_x.bits), 1.0);
            assert_eq!(f32::from_bits(c.controls[1].direction_y.bits), 0.5);
            assert!(c.toggle_sneak);
            assert!(!c.toggle_spells);
        },
        _ => panic!("no controls"),
    }
}

#[test]
fn a_control_must_be_one_that_there_is() {
    let controls = |call: &str| {
        lower("CONTROL_SCHEME", "ControlsDef", &format!("Controls.Add({call});"), &strings(&[]))
    };
    match controls("CActionInputControl(1, 9, 0)") {
        Err(LowerError::Reader(DefReaderError::Semantic(m, None))) => {
            assert_eq!(m, "CActionInputControl: unknown controller type")
        },
        _ => panic!("no error"),
    }
    assert!(matches!(controls("CActionInputControl(5, 2, 30)"), Err(LowerError::Unsupported(_))));
    assert!(matches!(controls("CActionInputControl(1, 2, 31)"), Err(LowerError::Unsupported(_))));
    assert!(matches!(
        controls("CActionInputControl(1, 2)"),
        Err(LowerError::Reader(DefReaderError::MissingArg(2, _)))
    ));
    match lower("CONTROL_SCHEME", "ControlsDef", "Unknown 1;", &strings(&[])) {
        Err(e) => assert_eq!(e.message(), "unexpected statement"),
        Ok(_) => panic!("no error"),
    }
}

// ── The user interface ───────────────────────────────────────────────────────

fn ui() -> UiDef {
    let enumeration = || EnumField { allowed: vec![0, 1, 2, 3, 8, 13], value: 0 };
    UiDef::def_default(&UiParts {
        type_: enumeration(),
        mesh_type: enumeration(),
        action: enumeration(),
        alignement: enumeration(),
        state: Value::Struct(Compound {
            class: "UiStateDef".to_string(),
            named: true,
            members: vec![Member {
                name: "Graphic".to_string(),
                value: Value::Scalar(Scalar::I32(0)),
            }],
        }),
    })
}

fn field(r: &Record, name: &str) -> i128 {
    number_of(&r.fields[find_member(&r.fields, name).unwrap()].value)
}

#[test]
fn an_element_has_the_default_font() {
    let env = strings(&[("ENG_ARIAL_16", 321)]);
    let symbols = SymbolTable::new();
    let r = lower_ui(&ui().fields, &vec![], &symbols, &env).unwrap();
    assert_eq!(field(&r, "Font"), 321);
}

#[test]
fn an_element_refuses_what_it_does_not_know() {
    let env = strings(&[("ENG_ARIAL_16", 321)]);
    let symbols = SymbolTable::new();
    assert!(lower_ui(&ui().fields, &body_of("NoSuchField 1;"), &symbols, &env).is_err());
}

/// What is derived from a source of opinions is derived behind its statements: first the
/// reactions, and then the opinions.
#[test]
fn a_source_of_opinions_is_derived_behind_its_statements() {
    let mut types = types("OPINION_SOURCE", "OpinionSourceDef");
    types.types[0].default.record.fields =
        vec![Member { name: "N".to_string(), value: Value::Scalar(Scalar::I32(0)) }];
    let (symbols, env) = (SymbolTable::new(), strings(&[]));
    let (lowered, rest) =
        lower_def(&types, "OPINION_SOURCE", None, &body_of("N 5;"), &symbols, &env).unwrap();
    assert!(rest.is_empty());
    assert_eq!(number_of(&lowered.record.fields[0].value), 11);
    let mut types = types;
    types.types[0].name = "CLookDef".to_string();
    types.types[0].default.kind = "LookDef".to_string();
    let (lowered, _) =
        lower_def(&types, "CLookDef", None, &body_of("N 5;"), &symbols, &env).unwrap();
    assert_eq!(number_of(&lowered.record.fields[0].value), 5);
}

/// The null definition of the user interface asks for its font before any class is named.
#[test]
fn null_definitions_ask_first() {
    let mut types = types("UI", "UiDef");
    types.types[0].default.record = ui().fields;
    let mut table = NamesBuilder::new();
    let symbols = SymbolTable::new();
    let nulls =
        build_nulldefs(&types, &vec!["UI"], &symbols, &strings(&[]), &mut table).unwrap();
    assert_eq!(field(&nulls[0].body.record, "Font"), 4);
    Entries::new().emit_nulldefs(&vec!["UI"], &nulls, &vec![], &mut table).unwrap();
    assert_eq!(
        table.finalize([0; 20]).map.into_values().map(|e| e.string).collect::<Vec<_>>(),
        ["ENG_ARIAL_16", "UI", "NULLDEF_UI"]
    );
}
