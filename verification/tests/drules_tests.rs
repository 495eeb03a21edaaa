use kothic::canonical::FloatTexts;
use kothic::model::{CaptionDef, ClassifElement, ColorElement, Container, DrawElement, LineRule};
use kothic::pack::serialize_binary;
use kothic::textdump::serialize_text;
use kothic::unpack::{load_container, parse_binary};
use kothic::wire::write_varuint;

const MAGIC_LEN: usize = 4;

fn make_element(scale: u8, width: f64) -> DrawElement {
    let mut element = DrawElement::new();
    element.set_scale(scale);
    let mut line = LineRule::new();
    line.set_width(width.to_bits());
    line.set_color(0xFF010203u32);
    element.lines.push(line);
    element
}

fn make_container(types: &[(&str, Vec<DrawElement>)]) -> Container {
    let mut container = Container::new();
    let mut color = ColorElement::new();
    color.set_name("base");
    color.set_color(0xFF010203u32);
    container.colors.value.push(color);
    for (name, elements) in types {
        let mut rule = ClassifElement::new();
        rule.set_name(name);
        rule.element.extend(elements.iter().cloned());
        container.cont.push(rule);
    }
    container
}

fn read_varuint(data: &[u8], mut pos: usize) -> (u64, usize) {
    let mut shift = 0;
    let mut result = 0u64;
    loop {
        let b = data[pos];
        pos += 1;
        result |= ((b & 127) as u64) << shift;
        if b & 128 == 0 {
            return (result, pos);
        }
        shift += 7;
    }
}

fn encode_varuint(value: u64) -> Vec<u8> {
    let mut result = Vec::new();
    write_varuint(&mut result, value);
    result
}

fn float_texts(values: &[(f64, &str)]) -> FloatTexts {
    let mut ft = FloatTexts::new();
    for (v, t) in values {
        ft.add(v.to_bits(), t);
    }
    ft
}

#[test]
fn test_parse_binary_skips_section_padding() {
    let container = make_container(&[("highway-primary", vec![make_element(10, 2.0)])]);
    let mut blob = serialize_binary(&[container], &[String::from("light")]).unwrap();

    let mut pos = MAGIC_LEN + 1 + 1;
    let (variant_name_len, p) = read_varuint(&blob, pos);
    pos = p + variant_name_len as usize;

    let section_size_pos = pos;
    let (section_size, section_body_pos) = read_varuint(&blob, section_size_pos);
    let mut section_end = section_body_pos + section_size as usize;

    let encoded_size = encode_varuint(section_size + 1);
    let old_len = section_body_pos - section_size_pos;
    blob.splice(section_size_pos..section_body_pos, encoded_size.iter().cloned());
    section_end += encoded_size.len() - old_len;
    blob.insert(section_end, 0);

    let (variant_names, containers) = parse_binary(&blob).unwrap();
    assert_eq!(variant_names, vec!["light"]);
    assert_eq!(containers[0].cont.len(), 1);
}

#[test]
fn test_binary_roundtrip_is_identity() {
    let container = make_container(&[
        ("highway-primary", vec![make_element(10, 2.0)]),
        ("type-a", vec![make_element(5, 1.5), make_element(7, 4.0)]),
    ]);
    let blob = serialize_binary(std::slice::from_ref(&container), &["design".to_string()]).unwrap();
    let (names, containers) = parse_binary(&blob).unwrap();
    assert_eq!(names, vec!["design"]);
    let blob2 = serialize_binary(&containers, &names).unwrap();
    assert_eq!(blob, blob2);
}

#[test]
fn test_multi_variant_pack_and_roundtrip() {
    let light = make_container(&[("highway", vec![make_element(6, 2.0)])]);
    let dark = make_container(&[("highway", vec![make_element(6, 2.0)])]);
    let blob = serialize_binary(&[light, dark], &[String::from("light"), String::from("dark")]).unwrap();
    let (names, containers) = parse_binary(&blob).unwrap();
    assert_eq!(names, vec!["light", "dark"]);
    let blob2 = serialize_binary(&containers, &names).unwrap();
    assert_eq!(blob, blob2);
}

#[test]
fn test_non_isomorphic_variants_error() {
    let light = make_container(&[("highway", vec![make_element(6, 2.0)])]);
    let mut dark = make_container(&[("highway", vec![make_element(6, 2.0)])]);
    // Dark variant has an extra element; non-isomorphic modulo colors.
    dark.cont[0].element.push(make_element(7, 3.0));
    let err = serialize_binary(&[light, dark], &[String::from("light"), String::from("dark")]).unwrap_err();
    assert!(err.contains("not isomorphic"));
}

#[test]
fn test_canonical_string() {
    let mut el = make_element(10, 2.0);
    el.lines[0].set_priority(7);
    el.apply_if.extend(["name".to_string(), "highway".to_string()]);
    let mut line2 = LineRule::new();
    line2.set_width(0.0f64.to_bits());
    line2.set_color(0u32);
    line2.pathsym.set_name("arrow.svg");
    line2.pathsym.set_step(24.0f64.to_bits());
    line2.pathsym.set_offset(1.5f64.to_bits());
    line2.set_priority(3);
    el.lines.push(line2);
    let floats = float_texts(&[(2.0, "2.0"), (24.0, "24.0"), (1.5, "1.5")]);
    let s = el.canonical(false, &floats);
    assert_eq!(
        s,
        "scale=10,apply_if=['name', 'highway'],lines=[width=2.0,color=4278256131,priority=7,priority=3,pathsym{name='arrow.svg',step=24.0,offset=1.5}]"
    );
}

#[test]
fn test_default_assignment_marks_present() {
    // Assigning a scalar equal to its default still marks the message "set",
    // e.g. is_optional = False.
    let mut cap = CaptionDef::new();
    cap.set_is_optional(false);
    assert!(cap.is_set());
    assert_eq!(cap.canonical(false, &FloatTexts::new()), "");
    let fresh = CaptionDef::new();
    assert!(!fresh.is_set());
}

#[test]
fn canonical_skipping_colors_hides_color_values() {
    let a = make_element(3, 1.0);
    let mut b = make_element(3, 1.0);
    b.lines[0].set_color(0xFF00FF00u32);
    let ft = FloatTexts::new();
    assert_eq!(a.canonical(true, &ft), b.canonical(true, &ft));
    assert_ne!(a.canonical(false, &ft), b.canonical(false, &ft));
}

#[test]
fn canonical_real_without_text_uses_bit_pattern() {
    let el = make_element(1, 2.0);
    let s = el.canonical(false, &FloatTexts::new());
    assert_eq!(s, "scale=1,lines=[width=#4000000000000000,color=4278256131]");
}

#[test]
fn blob_layout_of_one_variant() {
    let container = make_container(&[("t", vec![make_element(4, 2.0)])]);
    let blob = serialize_binary(&[container], &[String::from("v")]).unwrap();
    let expected: Vec<u8> = vec![
        b'O', b'M', b'D', b'R', 1, 1, 1, b'v',
        // string table: "", "t", "base"
        9, 3, 0, 1, b't', 4, b'b', b'a', b's', b'e',
        // color table: one entry, one variant
        5, 1, 0x03, 0x02, 0x01, 0xFF,
        // named colors: "base" -> entry 0
        3, 1, 2, 0,
        // rule counts
        6, 1, 0, 0, 0, 0, 0,
        // types: one type, one element with one line of width 2.0
        16, 1, 1, 1, 4, 0, 1, 1, 0, 0x00, 0x00, 0x00, 0x40, 0, 0, 0, 0,
        // overrides
        1, 0,
    ];
    assert_eq!(blob, expected);
}

#[test]
fn palette_keys_join_variant_colors() {
    let light = make_container(&[("highway", vec![make_element(6, 2.0)])]);
    let mut dark = make_container(&[("highway", vec![make_element(6, 2.0)])]);
    dark.cont[0].element[0].lines[0].set_color(0xFF000000u32);
    let blob = serialize_binary(&[light, dark], &[String::from("light"), String::from("dark")]).unwrap();
    let (_, containers) = parse_binary(&blob).unwrap();
    assert_eq!(containers[0].cont[0].element[0].lines[0].color, 0xFF010203u32);
    assert_eq!(containers[1].cont[0].element[0].lines[0].color, 0xFF000000u32);
    assert_eq!(containers[1].colors.value[0].color, 0xFF010203u32);
}

#[test]
fn pack_errors() {
    let c = make_container(&[("t", vec![make_element(1, 1.0)])]);
    let e = serialize_binary(&[c.clone()], &[]).unwrap_err();
    assert_eq!(e, "expected one non-empty container per variant name");
    let e = serialize_binary(&[], &[]).unwrap_err();
    assert_eq!(e, "expected one non-empty container per variant name");
    let many: Vec<Container> = (0..256).map(|_| c.clone()).collect();
    let names: Vec<String> = (0..256).map(|i| format!("v{}", i)).collect();
    let e = serialize_binary(&many, &names).unwrap_err();
    assert_eq!(e, "native drules format supports at most 255 variants");
}

#[test]
fn parse_errors() {
    assert_eq!(parse_binary(b"OMD").err().unwrap(), "Truncated drules data");
    assert_eq!(parse_binary(b"XXXX\x01").err().unwrap(), "Not a drules file (bad magic)");
    assert_eq!(parse_binary(b"OMDR\x02").err().unwrap(), "Unsupported drules format version 2");
    assert_eq!(parse_binary(b"OMDR\x01\x00\x05").err().unwrap(), "Truncated drules section");
    assert_eq!(parse_binary(b"OMDR\x01\x00\x03\x01\x01x").err().unwrap(), "String table must start with the empty string");
    assert_eq!(parse_binary(b"OMDR\x01\x00\x01\x01\x00").err().unwrap(), "Drules section overrun");
    let long: Vec<u8> = [b"OMDR\x01\x00".to_vec(), vec![0xFF; 11]].concat();
    assert_eq!(parse_binary(&long).err().unwrap(), "Malformed varint in drules data");
}

#[test]
fn parse_reads_non_ascii_names() {
    let container = make_container(&[("t", vec![make_element(1, 1.0)])]);
    let blob = serialize_binary(&[container], &["día".to_string()]).unwrap();
    let (names, _) = parse_binary(&blob).unwrap();
    assert_eq!(names, vec!["día"]);
}

#[test]
fn load_container_takes_first_variant() {
    let light = make_container(&[("highway", vec![make_element(6, 2.0)])]);
    let mut dark = light.clone();
    dark.colors.value[0].set_color(7);
    let blob = serialize_binary(&[light, dark], &[String::from("light"), String::from("dark")]).unwrap();
    let c = load_container(&blob).unwrap();
    assert_eq!(c.colors.value[0].color, 0xFF010203u32);
    let empty = serialize_binary(&[], &[]);
    assert!(empty.is_err());
    let none_blob: Vec<u8> = vec![b'O', b'M', b'D', b'R', 1, 0, 2, 1, 0, 1, 0, 1, 0, 6, 0, 0, 0, 0, 0, 0, 1, 0, 0];
    assert_eq!(load_container(&none_blob).err().unwrap(), "No variants in drules file");
}

#[test]
fn text_dump_of_one_variant() {
    let mut el = make_element(4, 2.0);
    el.apply_if.push("x".to_string());
    let container = make_container(&[("t", vec![el])]);
    let floats = float_texts(&[(2.0, "2")]);
    let text = serialize_text(&[container], &[String::from("v")], &floats).unwrap();
    assert_eq!(
        text,
        "# drules text dump, format 1. Generated by generate_drules.sh - do not edit.\n\
variants: v\n\
colors:\n  c000 #FF010203\n\
named-colors:\n  base c000\n\
type t\n  z4 if \"x\"\n    line width=2 color=c000 join=round cap=round priority=0\n"
    );
}

fn one_type(lines: Vec<LineRule>) -> Container {
    let mut c = Container::new();
    let mut rule = ClassifElement::new();
    rule.set_name("t");
    let mut e = DrawElement::new();
    e.set_scale(1);
    e.lines.extend(lines);
    rule.element.push(e);
    c.cont.push(rule);
    c
}

#[test]
fn variants_with_different_line_counts_are_not_isomorphic() {
    let mut l1 = LineRule::new();
    l1.set_width(2.0f64.to_bits());
    l1.set_priority(7);
    let mut l2 = LineRule::new();
    l2.set_width(2.0f64.to_bits());
    let mut l3 = LineRule::new();
    l3.set_priority(7);
    let a = one_type(vec![l1]);
    let b = one_type(vec![l2, l3]);
    let names = vec!["light".to_string(), "dark".to_string()];
    let err = serialize_binary(&[a, b], &names).unwrap_err();
    assert!(err.contains("not isomorphic"));
    let a = one_type(vec![]);
    let mut l = LineRule::new();
    l.set_priority(1);
    let b = one_type(vec![l]);
    let err = serialize_text(&[a, b], &names, &FloatTexts::new()).unwrap_err();
    assert!(err.contains("not isomorphic"));
}

#[test]
fn varuint_bytes_carry_a_continuation_bit_on_all_but_the_last() {
    assert_eq!(encode_varuint(300), vec![0xAC, 0x02]);
    assert_eq!(encode_varuint(0), vec![0x00]);
    assert_eq!(encode_varuint(127), vec![0x7F]);
    assert_eq!(encode_varuint(128), vec![0x80, 0x01]);
    for v in [1u64, 127, 128, 16383, 16384, u32::MAX as u64, u64::MAX] {
        let w = encode_varuint(v);
        let bits = 64 - v.leading_zeros() as usize;
        assert_eq!(w.len(), std::cmp::max(1, (bits + 6) / 7));
        assert!(w[..w.len() - 1].iter().all(|b| b & 0x80 != 0));
        assert_eq!(w[w.len() - 1] & 0x80, 0);
    }
}
