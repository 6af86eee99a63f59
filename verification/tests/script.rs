use prune::script::{instructions, Instruction};

/// What a script reads as: data in brackets, opcodes as numbers.
fn read(script: &[u8]) -> Vec<String> {
    instructions(script)
        .iter()
        .map(|i| match i {
            Instruction::PushBytes(data) => format!("{data:?}"),
            Instruction::Op(op) => format!("{op}"),
            Instruction::Malformed => String::from("malformed"),
        })
        .collect()
}

#[test]
fn pushes_and_opcodes_are_told_apart() {
    assert_eq!(read(&[]), Vec::<String>::new());
    assert_eq!(read(&[0x00, 0x63, 0x02, 7, 8, 0x68]), vec!["[]", "99", "[7, 8]", "104"]);
    assert_eq!(read(&[0x4c, 2, 7, 8]), vec!["[7, 8]"]);
    assert_eq!(read(&[0x4d, 1, 0, 9, 0xac]), vec!["[9]", "172"]);
    assert_eq!(read(&[0x4e, 1, 0, 0, 0, 9]), vec!["[9]"]);
    assert_eq!(read(&[0x4f]), vec!["79"]);
}

#[test]
fn nothing_is_read_after_a_malformed_push() {
    assert_eq!(read(&[0x63, 0x05, 1, 2]), vec!["99", "malformed"]);
    assert_eq!(read(&[0x4d, 1]), vec!["malformed"]);
    assert_eq!(read(&[0x4e, 1, 0, 0, 0]), vec!["malformed"]);
}
