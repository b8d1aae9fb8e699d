use llm_json::{repair_json, RepairOptions};

fn listed_whitespace(c: char) -> bool {
    let v = c as u32;
    (0x09..=0x0d).contains(&v)
        || v == 0x20
        || v == 0x85
        || v == 0xa0
        || v == 0x1680
        || (0x2000..=0x200a).contains(&v)
        || v == 0x2028
        || v == 0x2029
        || v == 0x202f
        || v == 0x205f
        || v == 0x3000
}

#[test]
fn whitespace_is_the_listed_class() {
    let mut count = 0;
    for v in 0..=0x10ffffu32 {
        if let Some(c) = char::from_u32(v) {
            assert_eq!(c.is_whitespace(), listed_whitespace(c), "U+{:04X}", v);
            if c.is_whitespace() {
                count += 1;
            }
        }
    }
    assert_eq!(count, 25);
}

#[test]
fn ascii_alphabetic_is_the_letters() {
    for v in 0..=0x7fu32 {
        let c = char::from_u32(v).unwrap();
        assert_eq!(c.is_alphabetic(), c.is_ascii_uppercase() || c.is_ascii_lowercase());
    }
}

#[test]
fn every_listed_whitespace_is_blank_input() {
    let options = RepairOptions::default();
    for v in 0..=0x3000u32 {
        if let Some(c) = char::from_u32(v) {
            if listed_whitespace(c) {
                assert_eq!(repair_json(&c.to_string(), &options).unwrap(), "{}");
            }
        }
    }
    assert_ne!(repair_json("\u{200b}", &options).unwrap(), "{}");
    assert_ne!(repair_json("\u{180e}", &options).unwrap(), "{}");
}
