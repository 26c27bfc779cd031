use rvirt::riscv::{
    csr, decode, instruction_length, rd, rs1, rs2, CsrKind, Decoded, LoadKind, StoreKind, SystemOp,
};

#[test]
fn decode_loads() {
    assert_eq!(decode(0x0005_a503), Decoded::Load(LoadKind::Lw, 0x0005_a503));
    assert_eq!(decode(0x0005_b503), Decoded::Load(LoadKind::Ld, 0x0005_b503));
    assert_eq!(decode(0x0003_8283), Decoded::Load(LoadKind::Lb, 0x0003_8283));
    assert_eq!(decode(0x0003_9283), Decoded::Load(LoadKind::Lh, 0x0003_9283));
    assert_eq!(decode(0x0003_c283), Decoded::Load(LoadKind::Lbu, 0x0003_c283));
    assert_eq!(decode(0x0003_d283), Decoded::Load(LoadKind::Lhu, 0x0003_d283));
    assert_eq!(decode(0x0003_e283), Decoded::Load(LoadKind::Lwu, 0x0003_e283));
}

#[test]
fn decode_stores() {
    assert_eq!(decode(0x00a5_b023), Decoded::Store(StoreKind::Sd, 0x00a5_b023));
    assert_eq!(decode(0x0063_a023), Decoded::Store(StoreKind::Sw, 0x0063_a023));
    assert_eq!(decode(0x0063_9023), Decoded::Store(StoreKind::Sh, 0x0063_9023));
    assert_eq!(decode(0x0063_8023), Decoded::Store(StoreKind::Sb, 0x0063_8023));
}

#[test]
fn decode_compressed_loads_and_stores_in_their_long_form() {
    assert_eq!(decode(0x6188), Decoded::Load(LoadKind::Ld, 0x0005_b503));
    assert_eq!(decode(0x43b0), Decoded::Load(LoadKind::Lw, 0x0407_a603));
    assert_eq!(decode(0xe188), Decoded::Store(StoreKind::Sd, 0x00a5_b023));
    assert_eq!(decode(0xc3b0), Decoded::Store(StoreKind::Sw, 0x04c7_a023));
    assert_eq!(rd(0x0407_a603), 12);
    assert_eq!(rs2(0x04c7_a023), 12);
}

#[test]
fn decode_csr_accesses() {
    assert_eq!(decode(0x1056_9073), Decoded::Csr(CsrKind::Csrrw, 0x1056_9073));
    assert_eq!(decode(0x1003_22f3), Decoded::Csr(CsrKind::Csrrs, 0x1003_22f3));
    assert_eq!(decode(0x1003_32f3), Decoded::Csr(CsrKind::Csrrc, 0x1003_32f3));
    assert_eq!(decode(0x1000_d2f3), Decoded::Csr(CsrKind::Csrrwi, 0x1000_d2f3));
    assert_eq!(decode(0x1000_e2f3), Decoded::Csr(CsrKind::Csrrsi, 0x1000_e2f3));
    assert_eq!(decode(0x1000_f2f3), Decoded::Csr(CsrKind::Csrrci, 0x1000_f2f3));
}

#[test]
fn decode_privileged_instructions() {
    assert_eq!(decode(0x1020_0073), Decoded::System(SystemOp::Sret));
    assert_eq!(decode(0x1050_0073), Decoded::System(SystemOp::Wfi));
    assert_eq!(decode(0x12b5_0073), Decoded::System(SystemOp::SfenceVma(0x12b5_0073)));
}

#[test]
fn decode_of_anything_else() {
    assert_eq!(decode(0x0000_0073), Decoded::Other);
    assert_eq!(decode(0x00c5_8633), Decoded::Other);
    assert_eq!(decode(0xffff_ffff), Decoded::Other);
    assert_eq!(decode(0), Decoded::Other);
    assert_eq!(decode(0x0001), Decoded::Other);
}

#[test]
fn fields_of_an_instruction() {
    assert_eq!(rd(0x1003_22f3), 5);
    assert_eq!(rs1(0x1003_22f3), 6);
    assert_eq!(csr(0x1003_22f3), 0x100);
    assert_eq!(rs2(0x00a5_b023), 10);
    assert_eq!(rs1(0x00a5_b023), 11);
    assert_eq!(rd(0xffff_ffff), 31);
    assert_eq!(rs1(0xffff_ffff), 31);
    assert_eq!(rs2(0xffff_ffff), 31);
    assert_eq!(csr(0xffff_ffff), 0xfff);
}

#[test]
fn length_of_an_instruction() {
    assert_eq!(instruction_length(0x6188), 2);
    assert_eq!(instruction_length(0x0000), 2);
    assert_eq!(instruction_length(0x0073), 4);
    assert_eq!(instruction_length(0xa503), 4);
    assert_eq!(instruction_length(0x001f), 6);
    assert_eq!(instruction_length(0x003f), 10);
    assert_eq!(instruction_length(0x707f), 24);
}
