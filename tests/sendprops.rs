use tf_demo_analyser::sendprop::{
    flatten_classes, Exclusion, FlatProp, FlattenError, PropDefinition, PropIdentifier, PropKind, PropSchema,
    ServerClass,
};

fn leaf(name: &str, kind: PropKind, changes_often: bool) -> PropDefinition {
    PropDefinition { name: String::from(name), kind, changes_often, table_ref: None }
}

fn nested(table: &str) -> PropDefinition {
    PropDefinition {
        name: String::from("baseclass"),
        kind: PropKind::DataTable,
        changes_often: false,
        table_ref: Some(String::from(table)),
    }
}

fn table(name: &str, props: Vec<PropDefinition>, excludes: Vec<(&str, &str)>) -> PropSchema {
    PropSchema {
        name: String::from(name),
        props,
        excludes: excludes
            .into_iter()
            .map(|(t, p)| Exclusion { table: String::from(t), prop: String::from(p) })
            .collect(),
    }
}

fn sample_tables() -> Vec<PropSchema> {
    vec![
        table(
            "DT_Base",
            vec![leaf("a", PropKind::Int, false), leaf("b", PropKind::Float, true), nested("DT_Inner")],
            vec![],
        ),
        table(
            "DT_Inner",
            vec![leaf("c", PropKind::Int, false), leaf("d", PropKind::Int, true)],
            vec![],
        ),
        table(
            "DT_Root",
            vec![nested("DT_Base"), leaf("e", PropKind::Int, false), nested("DT_Inner")],
            vec![("DT_Inner", "c")],
        ),
    ]
}

fn names(props: &[FlatProp]) -> Vec<String> {
    props.iter().map(|p| format!("{}.{}", p.table, p.name)).collect()
}

#[test]
fn identifier_is_fnv1a_of_table_dot_name() {
    assert_eq!(PropIdentifier::new("DT_A", "x"), PropIdentifier(0x1a97_89e7_7e1b_e0c3));
    assert_ne!(PropIdentifier::new("DT_A", "x"), PropIdentifier::new("DT_A", "y"));
    assert_ne!(PropIdentifier::new("DT_A", "x"), PropIdentifier::new("DT_B", "x"));
}

#[test]
fn flatten_expands_excludes_dedups_and_orders() {
    let tables = sample_tables();
    let flat = tables[2].flatten_props(&tables).unwrap();
    assert_eq!(names(&flat), vec!["DT_Base.b", "DT_Inner.d", "DT_Base.a", "DT_Root.e"]);
    for p in &flat {
        assert_eq!(p.identifier, PropIdentifier::new(&p.table, &p.name));
    }
}

#[test]
fn flatten_twice_gives_the_same_list() {
    let tables = sample_tables();
    let first = tables[2].flatten_props(&tables).unwrap();
    let second = tables[2].flatten_props(&tables).unwrap();
    let ids1: Vec<PropIdentifier> = first.iter().map(|p| p.identifier).collect();
    let ids2: Vec<PropIdentifier> = second.iter().map(|p| p.identifier).collect();
    assert_eq!(ids1, ids2);
}

#[test]
fn flatten_puts_changes_often_first() {
    let tables = sample_tables();
    let flat = tables[0].flatten_props(&tables).unwrap();
    assert_eq!(names(&flat), vec!["DT_Base.b", "DT_Inner.d", "DT_Base.a", "DT_Inner.c"]);
    let first_plain = flat.iter().position(|p| !p.changes_often).unwrap();
    assert!(flat[first_plain..].iter().all(|p| !p.changes_often));
}

#[test]
fn flatten_identifiers_are_unique() {
    let tables = sample_tables();
    let flat = tables[2].flatten_props(&tables).unwrap();
    for i in 0..flat.len() {
        for j in 0..flat.len() {
            if i != j {
                assert_ne!(flat[i].identifier, flat[j].identifier);
            }
        }
    }
}

#[test]
fn flatten_unknown_nested_table_fails() {
    let tables = vec![table("DT_A", vec![nested("DT_Missing")], vec![])];
    assert!(matches!(tables[0].flatten_props(&tables), Err(FlattenError::UnknownTable)));
}

#[test]
fn flatten_cycle_fails() {
    let tables = vec![
        table("DT_A", vec![nested("DT_B")], vec![]),
        table("DT_B", vec![nested("DT_A")], vec![]),
    ];
    assert!(matches!(tables[0].flatten_props(&tables), Err(FlattenError::NestingTooDeep)));
}

#[test]
fn flatten_empty_table_is_empty() {
    let tables = vec![table("DT_A", vec![], vec![])];
    assert_eq!(tables[0].flatten_props(&tables).unwrap().len(), 0);
}

#[test]
fn server_class_flattens_its_table() {
    let tables = sample_tables();
    let class = ServerClass {
        id: 0,
        name: String::from("CRoot"),
        data_table: String::from("DT_Root"),
    };
    assert_eq!(names(&class.flatten(&tables).unwrap()).len(), 4);
    let missing = ServerClass {
        id: 1,
        name: String::from("CNone"),
        data_table: String::from("DT_None"),
    };
    assert!(matches!(missing.flatten(&tables), Err(FlattenError::UnknownTable)));
}

#[test]
fn flatten_classes_keeps_class_order() {
    let tables = sample_tables();
    let class = |id: u16, table: &str| ServerClass {
        id,
        name: format!("C{}", id),
        data_table: String::from(table),
    };
    let classes = vec![class(0, "DT_Inner"), class(1, "DT_Root")];
    let all = flatten_classes(&tables, &classes).unwrap();
    assert_eq!(all.len(), 2);
    assert_eq!(names(&all[0]), vec!["DT_Inner.d", "DT_Inner.c"]);
    assert_eq!(names(&all[1]).len(), 4);
    let bad = vec![class(0, "DT_Inner"), class(1, "DT_Nowhere")];
    assert!(matches!(flatten_classes(&tables, &bad), Err(FlattenError::UnknownTable)));
}
