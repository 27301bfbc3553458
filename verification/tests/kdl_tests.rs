use iro::color::BaseColorKind;
use iro::kdl_out::KdlSerializer;

#[test]
fn writes_an_inline_node_with_args_and_properties() {
    let s = KdlSerializer::new();
    let text = s
        .inline_node("name")
        .arg(&"dark".to_owned())
        .property("weight", &Some(700u16))
        .property("missing", &None::<u16>)
        .finish()
        .into_string();
    assert_eq!(text, "\nname \"dark\" weight=700");
}

#[test]
fn writes_a_children_block() {
    let s = KdlSerializer::new();
    let text = s
        .children_block("meta")
        .child("name", &"family".to_owned())
        .child("author", &"someone".to_owned())
        .finish()
        .into_string();
    assert_eq!(
        text,
        "\nmeta {\n    name \"family\"\n    author \"someone\"\n}"
    );
}

#[test]
fn quotes_are_escaped() {
    let s = KdlSerializer::new();
    let text = s
        .inline_node("note")
        .arg(&"a \"quoted\" \\ value".to_owned())
        .finish()
        .into_string();
    assert_eq!(text, "\nnote \"a \\\"quoted\\\" \\\\ value\"");
}

#[test]
fn base_colors_serialize_as_hex_or_reference() {
    let s = KdlSerializer::new();
    let hex = BaseColorKind::Hex(iro::parse_hex_color("#0102030f").unwrap());
    let named = BaseColorKind::PaletteReference("mauve".to_owned());
    let text = s
        .inline_node("color")
        .arg(&hex)
        .arg(&named)
        .finish()
        .into_string();
    assert_eq!(text, "\ncolor \"#0102030f\" \"mauve\"");
}

#[test]
fn nested_blocks_indent_by_four_spaces() {
    let s = KdlSerializer::new();
    let block = s.children_block("outer");
    let inner = block.inner.children_block("inner");
    let inner = inner.child("leaf", &"x".to_owned());
    let done = inner.finish();
    let text = done.into_string();
    assert_eq!(
        text,
        "\nouter {\ninner {\n    leaf \"x\"\n}"
    );
}
