use morpho_rs::declaration::{format_type_item, TypeDeclaration};
use morpho_rs::signature::{format_args, format_type, visibility_to_string};
use morpho_rs::syntax::{
    Field, Fields, FnArg, ItemEnum, ItemStruct, ItemTrait, ItemType, ReturnType, Signature,
    TraitItem, Type, TypeKind, Variant, Visibility,
};

fn path_type(name: &str) -> Type {
    Type {
        text: name.to_string(),
        kind: TypeKind::Path { path_text: name.to_string(), last_segment: Some(name.to_string()) },
    }
}

#[test]
fn record_with_named_fields() {
    let item = TypeDeclaration::Struct(ItemStruct {
        vis: Visibility::Public,
        ident: "Config".to_string(),
        fields: Fields::Named(vec![
            Field { vis: Visibility::Public, ident: Some("name".to_string()), ty: path_type("String") },
            Field { vis: Visibility::Inherited, ident: Some("size".to_string()), ty: path_type("usize") },
        ]),
    });
    assert_eq!(
        format_type_item(&item),
        "pub struct Config {\n    pub name: String,\n    size: usize\n}"
    );
}

fn field(vis: Visibility, name: Option<&str>, ty: &str) -> Field {
    Field { vis, ident: name.map(|n| n.to_string()), ty: path_type(ty) }
}

#[test]
fn record_without_fields() {
    let item = TypeDeclaration::Struct(ItemStruct {
        vis: Visibility::Inherited,
        ident: "Unit".to_string(),
        fields: Fields::Unit,
    });
    assert_eq!(format_type_item(&item), "struct Unit {\n\n}");
}

#[test]
fn record_with_unnamed_fields() {
    let item = TypeDeclaration::Struct(ItemStruct {
        vis: Visibility::Restricted,
        ident: "Pair".to_string(),
        fields: Fields::Unnamed(vec![
            field(Visibility::Public, None, "u8"),
            field(Visibility::Inherited, None, "u16"),
        ]),
    });
    assert_eq!(format_type_item(&item), "struct Pair {\n    u8: u8,\n    u16: u16\n}");
}

#[test]
fn sum_type_with_every_kind_of_variant() {
    let item = TypeDeclaration::Enum(ItemEnum {
        vis: Visibility::Public,
        ident: "Shape".to_string(),
        variants: vec![
            Variant { ident: "Dot".to_string(), fields: Fields::Unit },
            Variant {
                ident: "Circle".to_string(),
                fields: Fields::Unnamed(vec![field(Visibility::Inherited, None, "f64")]),
            },
            Variant {
                ident: "Rect".to_string(),
                fields: Fields::Unnamed(vec![
                    field(Visibility::Inherited, None, "f64"),
                    field(Visibility::Inherited, None, "f32"),
                ]),
            },
            Variant {
                ident: "Named".to_string(),
                fields: Fields::Named(vec![field(Visibility::Inherited, Some("r"), "u8")]),
            },
            Variant {
                ident: "Wide".to_string(),
                fields: Fields::Named(vec![
                    field(Visibility::Inherited, Some("w"), "u8"),
                    field(Visibility::Public, Some("h"), "u8"),
                ]),
            },
            Variant { ident: "Empty".to_string(), fields: Fields::Named(vec![]) },
        ],
    });
    assert_eq!(
        format_type_item(&item),
        "pub enum Shape {\n    pub Dot,\n    Circle(f64),\n    Rect(f64, f32),\n    Named{ r: u8 },\n    Wide{ w, pub h },\n    Empty{  }\n}"
    );
}

#[test]
fn private_sum_type_has_bare_unit_variants() {
    let item = TypeDeclaration::Enum(ItemEnum {
        vis: Visibility::Inherited,
        ident: "E".to_string(),
        variants: vec![Variant { ident: "A".to_string(), fields: Fields::Unit }],
    });
    assert_eq!(format_type_item(&item), "enum E {\n    A\n}");
    let none = TypeDeclaration::Enum(ItemEnum {
        vis: Visibility::Inherited,
        ident: "E".to_string(),
        variants: vec![],
    });
    assert_eq!(format_type_item(&none), "enum E {\n\n}");
}

fn method(name: &str, inputs: Vec<FnArg>, output: ReturnType) -> TraitItem {
    TraitItem::Fn {
        sig: Signature {
            constness: false,
            asyncness: name == "wait",
            unsafety: false,
            ident: name.to_string(),
            inputs,
            output,
        },
    }
}

#[test]
fn interface_with_members() {
    let item = TypeDeclaration::Trait(ItemTrait {
        vis: Visibility::Public,
        ident: "Store".to_string(),
        items: vec![
            TraitItem::Other,
            method(
                "get",
                vec![FnArg::Receiver, FnArg::Typed(path_type("Key"))],
                ReturnType::Type(path_type("Value")),
            ),
            TraitItem::Type { ident: "Key".to_string() },
            TraitItem::Other,
            TraitItem::Const { ident: "LIMIT".to_string(), ty: path_type("usize") },
            method("wait", vec![], ReturnType::Default),
        ],
    });
    assert_eq!(
        format_type_item(&item),
        "pub trait Store {\n    pub fn get(self, Key) -> Value;\n    type Key;\n    const LIMIT: usize;\n    pub async fn wait();\n}"
    );
}

#[test]
fn interface_without_members() {
    let item = TypeDeclaration::Trait(ItemTrait {
        vis: Visibility::Inherited,
        ident: "Marker".to_string(),
        items: vec![TraitItem::Other],
    });
    assert_eq!(format_type_item(&item), "trait Marker {\n}");
}

#[test]
fn alias() {
    let item = TypeDeclaration::Alias(ItemType {
        vis: Visibility::Public,
        ident: "Id".to_string(),
        ty: path_type("u64"),
    });
    assert_eq!(format_type_item(&item), "pub type Id = u64;");
    assert_eq!(item.ident(), "Id");
    assert!(item.is_public());
}

#[test]
fn types_print_a_path_by_its_path_alone() {
    let qualified = Type {
        text: "< T as Iterator > :: Item".to_string(),
        kind: TypeKind::Path {
            path_text: "Iterator :: Item".to_string(),
            last_segment: Some("Item".to_string()),
        },
    };
    assert_eq!(format_type(&qualified), "Iterator :: Item");
    let tuple = Type { text: "(u8 , u8)".to_string(), kind: TypeKind::Other };
    assert_eq!(format_type(&tuple), "(u8 , u8)");
    let reference = Type {
        text: "& str".to_string(),
        kind: TypeKind::Reference { elem: Box::new(path_type("str")) },
    };
    assert_eq!(format_type(&reference), "& str");
    assert_eq!(
        format_args(&vec![FnArg::Receiver, FnArg::Typed(qualified), FnArg::Typed(tuple)]),
        "self, < T as Iterator > :: Item, (u8 , u8)"
    );
    assert_eq!(format_args(&vec![]), "");
}

#[test]
fn only_pub_is_public() {
    assert_eq!(visibility_to_string(Visibility::Public), "pub ");
    assert_eq!(visibility_to_string(Visibility::Restricted), "");
    assert_eq!(visibility_to_string(Visibility::Inherited), "");
}

#[test]
fn a_copy_of_a_declaration_is_printed_the_same() {
    let item = TypeDeclaration::Trait(ItemTrait {
        vis: Visibility::Public,
        ident: "Store".to_string(),
        items: vec![
            method("get", vec![FnArg::Receiver], ReturnType::Type(path_type("Value"))),
            TraitItem::Type { ident: "Key".to_string() },
            TraitItem::Other,
        ],
    });
    let copy = item.clone();
    assert_eq!(copy, item);
    assert_eq!(format_type_item(&copy), format_type_item(&item));
    let sum = TypeDeclaration::Enum(ItemEnum {
        vis: Visibility::Inherited,
        ident: "E".to_string(),
        variants: vec![
            Variant { ident: "A".to_string(), fields: Fields::Unit },
            Variant {
                ident: "B".to_string(),
                fields: Fields::Named(vec![field(Visibility::Public, Some("x"), "u8")]),
            },
        ],
    });
    assert_eq!(sum.clone(), sum);
}
