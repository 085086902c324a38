//! Structures of definitions.

use def_compiler::defs::arena::{ArenaCreatureDef, ArenaWaveDef, CardDef, FeatDef, PrizeScoreDef};
use def_compiler::defs::field::{DefField, EnumField};
use def_compiler::defs::inventory::InventoryCategoryDef;
use def_compiler::defs::objects::{CarryingDef, ClockDef, SmashableDef};
use def_compiler::defs::people::{EnemyDef, HitLocationsDef, WifeDef};
use def_compiler::defs::record::DefStruct;
use def_compiler::defs::screens::TavernGameDef;
use def_compiler::lower::env::NoEnv;
use def_compiler::lower::fields::lower_generic;
use def_compiler::text::ast::Item;
use def_compiler::text::base::FileId;
use def_compiler::text::parser::parse_source;
use def_compiler::text::symbols::SymbolTable;
use def_compiler::value::{same_value, Record, Scalar, Value};

fn same_record(a: &Record, b: &Record) -> bool {
    a.fields.len() == b.fields.len()
        && a.fields
            .iter()
            .zip(&b.fields)
            .all(|(x, y)| x.name == y.name && same_value(&x.value, &y.value))
}

fn reads_back<T: DefStruct>(def: &T) {
    let record = def.record();
    let back = T::from_record(&record).unwrap();
    assert!(same_record(&back.record(), &record));
}

#[test]
fn structures_read_back_from_their_fields() {
    reads_back(&ArenaCreatureDef::def_default());
    reads_back(&ArenaWaveDef::def_default());
    reads_back(&PrizeScoreDef::def_default());
    reads_back(&CardDef::def_default());
    reads_back(&FeatDef::def_default(EnumField { allowed: vec![0, 1], value: 1 }));
    reads_back(&InventoryCategoryDef::def_default());
    reads_back(&CarryingDef::def_default());
    reads_back(&ClockDef::def_default(EnumField { allowed: vec![0], value: 0 }));
    reads_back(&SmashableDef::def_default());
    reads_back(&EnemyDef::def_default());
    reads_back(&HitLocationsDef::def_default());
    reads_back(&WifeDef::def_default());
    reads_back(&TavernGameDef::def_default());
}

#[test]
fn a_structure_does_not_read_other_fields() {
    let record = ArenaCreatureDef::def_default().record();
    assert!(ArenaWaveDef::from_record(&record).is_none());
    assert!(i32::from_value(&Value::Scalar(Scalar::Bool(true))).is_none());
    assert_eq!(i32::from_value(&7i32.to_value()), Some(7));
    assert_eq!(bool::from_value(&true.to_value()), Some(true));
}

#[test]
fn a_structure_is_set_by_statements() {
    let text = "#definition X Y\nCreatureType \"BANDIT\";\nNumCreatures 4;\n#end_definition\n";
    let body = match parse_source(text, FileId(0)).unwrap().items.remove(0) {
        Item::Definition(d) => d.value.body,
        _ => panic!("no definition"),
    };
    let base = ArenaCreatureDef::def_default().record();
    let (record, rest) = lower_generic(&base, &body, &SymbolTable::new(), &NoEnv).unwrap();
    assert!(rest.is_empty());
    let def = ArenaCreatureDef::from_record(&record).unwrap();
    assert_eq!(def.creature_type, "BANDIT");
    assert_eq!(def.num_creatures, 4);
    assert_eq!(def.death_score, 0);
}
