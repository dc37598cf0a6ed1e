use corewars::load_file::{AddressMode, Modifier, Opcode, PseudoOpcode};

#[test]
fn util_pub_visible() {
    let _ = Opcode::Mov;
    let _ = PseudoOpcode::Org;
}

#[test]
fn util_to_string() {
    assert_eq!(Opcode::Mov.to_string(), "MOV");
    assert_eq!(Modifier::BA.to_string(), "BA");
    assert_eq!(AddressMode::PreDecIndirectB.to_string(), "<");
}

#[test]
fn util_from_string() {
    assert_eq!(Opcode::from_str("MOV").unwrap(), Opcode::Mov);
    assert_eq!(Modifier::from_str("BA").unwrap(), Modifier::BA);
    assert_eq!(AddressMode::from_str("<").unwrap(), AddressMode::PreDecIndirectB);

    assert_eq!(Opcode::from_str("Should fail"), Err("No variant 'Should fail' found for enum 'Opcode'".to_owned()));
}

#[test]
fn util_iter_values() {
    let values_from_iter: Vec<PseudoOpcode> = PseudoOpcode::iter_values();
    assert_eq!(values_from_iter, vec![PseudoOpcode::Org, PseudoOpcode::End, PseudoOpcode::Equ, PseudoOpcode::For]);
}
