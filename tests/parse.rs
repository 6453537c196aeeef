use ipl3_hasher::cli::{cic_parser, workgroups_parser, ybits_parser};

#[test]
fn ybits_two_ranges() {
    let v = ybits_parser("40[8..16],56[12..24]").unwrap();
    let mut expected: Vec<u32> = (8..=16).map(|b| (40 - 16) * 32 + b).collect();
    expected.extend((12..=24).map(|b| (56 - 16) * 32 + b));
    assert_eq!(v.len(), 22);
    assert_eq!(v, expected);
}

#[test]
fn ybits_default_layout() {
    let v = ybits_parser("1022[0..31]").unwrap();
    let expected: Vec<u32> = (0..32).map(|b| (1022 - 16) * 32 + b).collect();
    assert_eq!(v, expected);
    assert_eq!(ybits_parser("1022").unwrap(), expected);
}

#[test]
fn ybits_sorted_across_entries() {
    let v = ybits_parser("56[0..1],40[3..3]").unwrap();
    assert_eq!(v, vec![24 * 32 + 3, 40 * 32, 40 * 32 + 1]);
}

#[test]
fn ybits_rejections() {
    assert_eq!(ybits_parser("16").unwrap_err(), "invalid Y word index: 16");
    assert_eq!(ybits_parser("1023[0..1]").unwrap_err(), "invalid Y word index: 1023");
    assert_eq!(ybits_parser("40[9..8]").unwrap_err(), "invalid range");
    assert_eq!(ybits_parser("40[0..32]").unwrap_err(), "invalid range");
    assert_eq!(ybits_parser("40[0.8]").unwrap_err(), "invalid format");
    assert_eq!(ybits_parser("40[0..1..2]").unwrap_err(), "invalid format");
    assert_eq!(ybits_parser("40[1[2..3]").unwrap_err(), "invalid format");
    assert_eq!(ybits_parser("").unwrap_err(), "cannot parse integer from empty string");
    assert_eq!(ybits_parser("4x").unwrap_err(), "invalid digit found in string");
    assert_eq!(ybits_parser("99999999999").unwrap_err(), "number too large to fit in target type");
    assert_eq!(ybits_parser("40,41").unwrap_err(), "too many Y bits: 64 (max: 32)");
}

#[test]
fn ybits_rejects_signs_and_stray_brackets() {
    assert_eq!(ybits_parser("+40[1..2]").unwrap_err(), "invalid digit found in string");
    assert_eq!(ybits_parser("40[+1..2]").unwrap_err(), "invalid digit found in string");
    assert_eq!(ybits_parser("+40").unwrap_err(), "invalid digit found in string");
    assert_eq!(ybits_parser("40[1..2]]").unwrap_err(), "invalid digit found in string");
    assert_eq!(ybits_parser("40[1..2").unwrap_err(), "invalid format");
    assert_eq!(ybits_parser("40[]").unwrap_err(), "invalid format");
    assert_eq!(ybits_parser("40[1...2]").unwrap_err(), "invalid digit found in string");
}

#[test]
fn ybits_rejects_duplicated_bits() {
    assert_eq!(ybits_parser("40[0..3],40[2..5]").unwrap_err(), "duplicated Y bit: 770");
    assert_eq!(ybits_parser("40[7..7],40[7..7]").unwrap_err(), "duplicated Y bit: 775");
    assert_eq!(ybits_parser("40[0..3],40[4..5]").unwrap().len(), 6);
}

#[test]
fn number_errors_follow_std_order() {
    assert_eq!(ybits_parser("99999999999x").unwrap_err(), "number too large to fit in target type");
    assert_eq!(ybits_parser("9x9999999999").unwrap_err(), "invalid digit found in string");
}

#[test]
fn cic_table() {
    assert_eq!(cic_parser("6101"), Ok((0x3F, 0x45CC73EE317A)));
    assert_eq!(cic_parser("6102"), Ok((0x3F, 0xA536C0F1D859)));
    assert_eq!(cic_parser("7101"), Ok((0x3F, 0xA536C0F1D859)));
    assert_eq!(cic_parser("6103"), Ok((0x78, 0x586FD4709867)));
    assert_eq!(cic_parser("7103"), Ok((0x78, 0x586FD4709867)));
    assert_eq!(cic_parser("6105"), Ok((0x91, 0x8618A45BC2D3)));
    assert_eq!(cic_parser("7105"), Ok((0x91, 0x8618A45BC2D3)));
    assert_eq!(cic_parser("6106"), Ok((0x85, 0x2BBAD4E6EB74)));
    assert_eq!(cic_parser("7106"), Ok((0x85, 0x2BBAD4E6EB74)));
    assert_eq!(cic_parser("8303"), Ok((0xDD, 0x32B294E2AB90)));
    assert_eq!(cic_parser("8401"), Ok((0xDD, 0x6EE8D9E84970)));
    assert_eq!(cic_parser("5167"), Ok((0xDD, 0x083C6C77E0B1)));
    assert_eq!(cic_parser("DDUS"), Ok((0xDE, 0x05BA2EF0A5F1)));
    assert_eq!(cic_parser("6104"), Err("Unknown CIC".to_string()));
    assert_eq!(cic_parser("ddus"), Err("Unknown CIC".to_string()));
}

#[test]
fn workgroups_values() {
    assert_eq!(workgroups_parser("256,256,256"), Ok((256, 256, 256)));
    assert_eq!(workgroups_parser("8"), Ok((8, 1, 1)));
    assert_eq!(workgroups_parser("8,9"), Ok((8, 9, 1)));
    assert_eq!(workgroups_parser("1,2,3,4"), Err("invalid format".to_string()));
    assert_eq!(workgroups_parser("1,,3"), Err("cannot parse integer from empty string".to_string()));
    assert_eq!(workgroups_parser("1,-2"), Err("invalid digit found in string".to_string()));
    assert_eq!(workgroups_parser("1,+2"), Err("invalid digit found in string".to_string()));
}
