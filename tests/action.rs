use zeos_orchard::action::{
    encrypted_outputs, proved_instances, Instance, ZA_BURNAUTH, ZA_MINTNFT, ZA_NULL, OutputPublic, SpendPublic, ZAction, ZA_BURNFT, ZA_BURNFT2, ZA_BURNNFT, ZA_DUMMY, ZA_MINTAUTH, ZA_MINTFT,
    ZA_TRANSFERFT, ZA_TRANSFERNFT,
};

fn spend() -> SpendPublic {
    SpendPublic { anchor: [1, 2, 3, 4], nf: [5, 6, 7, 8], rk_x: [9, 10, 11, 12], rk_y: [13, 14, 15, 16] }
}

fn out(d1: u64, cm: u64) -> OutputPublic {
    OutputPublic { d1, d2: 1397703940, sc: 6138663591592764928, cm: [cm, cm + 1, cm + 2, cm + 3] }
}

fn limbs_hex(l: &[u64; 4]) -> String {
    l.iter().map(|x| hex::encode(x.to_le_bytes())).collect::<Vec<_>>().concat()
}

#[test]
fn mint_reveals_and_commits_output() {
    let ins = Instance::for_action(ZA_MINTFT, None, Some(out(10000, 100)), None);
    assert_eq!(ins.anchor, [0; 4]);
    assert_eq!(ins.nf, [0; 4]);
    assert_eq!(ins.rk_x, [0; 4]);
    assert!(!ins.nft);
    assert_eq!(ins.b_d1, 10000);
    assert_eq!(ins.b_d2, 1397703940);
    assert_eq!(ins.b_sc, 6138663591592764928);
    assert_eq!(ins.cmb, [100, 101, 102, 103]);
    assert_eq!(ins.cmc, [0; 4]);
    assert!(Instance::for_action(ZA_MINTAUTH, None, Some(out(1, 1)), None).nft);
}

#[test]
fn transfer_keeps_values_private() {
    let ins = Instance::for_action(ZA_TRANSFERFT, Some(spend()), Some(out(7, 100)), Some(out(2, 200)));
    assert_eq!(ins.anchor, [1, 2, 3, 4]);
    assert_eq!(ins.nf, [5, 6, 7, 8]);
    assert_eq!(ins.rk_y, [13, 14, 15, 16]);
    assert_eq!(ins.b_d1, 0);
    assert_eq!(ins.b_d2, 0);
    assert_eq!(ins.b_sc, 0);
    assert_eq!(ins.c_d1, 0);
    assert_eq!(ins.cmb, [100, 101, 102, 103]);
    assert_eq!(ins.cmc, [200, 201, 202, 203]);
    let nft = Instance::for_action(ZA_TRANSFERNFT, Some(spend()), Some(out(1337, 100)), None);
    assert!(nft.nft);
    assert_eq!(nft.b_d1, 0);
    assert_eq!(nft.cmc, [0; 4]);
}

#[test]
fn burns_reveal_and_do_not_commit() {
    let ins = Instance::for_action(ZA_BURNFT, Some(spend()), Some(out(9, 100)), Some(out(1, 200)));
    assert_eq!(ins.b_d1, 9);
    assert_eq!(ins.cmb, [0; 4]);
    assert_eq!(ins.c_d1, 0);
    assert_eq!(ins.cmc, [200, 201, 202, 203]);
    let two = Instance::for_action(ZA_BURNFT2, Some(spend()), Some(out(9, 100)), Some(out(1, 200)));
    assert_eq!(two.b_d1, 9);
    assert_eq!(two.c_d1, 1);
    assert_eq!(two.cmb, [0; 4]);
    assert_eq!(two.cmc, [0; 4]);
    let nft = Instance::for_action(ZA_BURNNFT, Some(spend()), Some(out(1337, 100)), None);
    assert!(nft.nft);
    assert_eq!(nft.b_d1, 1337);
    assert_eq!(nft.cmb, [0; 4]);
}

#[test]
fn serialization_layout() {
    let ins = Instance::from_parts(
        [1, 2, 3, 4],
        [5, 6, 7, 8],
        [9, 10, 11, 12],
        [13, 14, 15, 16],
        true,
        17,
        18,
        19,
        20,
        [21, 22, 23, 24],
        [25, 26, 27, 28],
    );
    let za = ZAction::from_parts(ZA_MINTFT, ins, "memo".to_string());
    assert_eq!(za.za_type(), ZA_MINTFT);
    assert_eq!(za.instance().b_d2, 18);
    let mut expected = hex::encode(ZA_MINTFT.to_le_bytes());
    for l in [ins.anchor, ins.nf, ins.rk_x, ins.rk_y] {
        expected.push_str(&limbs_hex(&l));
    }
    expected.push_str("01");
    for v in [17u64, 18, 19, 20] {
        expected.push_str(&hex::encode(v.to_le_bytes()));
    }
    expected.push_str(&limbs_hex(&ins.cmb));
    expected.push_str(&limbs_hex(&ins.cmc));
    expected.push_str("04");
    expected.push_str(&hex::encode("memo"));
    assert_eq!(za.serialize_eos(), expected);
}

#[test]
fn eos_serialization() {
    let zero = [0u64; 4];
    let ins = Instance::from_parts(zero, zero, zero, zero, false, 0, 0, 0, 0, zero, zero);
    let za = ZAction::from_parts(0xDEADBEEFDEADBEEF, ins, String::from("mschoenebeck"));
    let s = za.serialize_eos();
    assert_eq!(za.za_type(), ZA_DUMMY);
    assert!(s.starts_with("efbeaddeefbeadde"));
    assert!(s.ends_with(&format!("0C{}", hex::encode("mschoenebeck"))));
    assert_eq!(s.len(), 2 * (8 + 4 * 32 + 1 + 32 + 64 + 1 + 12));
}

#[test]
fn long_memos_are_cut_at_255_bytes() {
    let zero = [0u64; 4];
    let ins = Instance::from_parts(zero, zero, zero, zero, false, 0, 0, 0, 0, zero, zero);
    let memo = "x".repeat(300);
    let s = ZAction::from_parts(ZA_MINTFT, ins, memo).serialize_eos();
    let fixed = 2 * (8 + 4 * 32 + 1 + 32 + 64);
    assert_eq!(&s[fixed..fixed + 2], "FF");
    assert_eq!(s.len(), fixed + 2 + 2 * 255);
}

#[test]
fn which_outputs_are_encrypted() {
    for t in [ZA_MINTFT, ZA_MINTNFT, ZA_TRANSFERNFT, ZA_BURNFT2, ZA_BURNNFT, ZA_NULL] {
        let e = encrypted_outputs(t);
        assert!(e.b);
        assert!(!e.c);
    }
    for t in [ZA_TRANSFERFT, ZA_BURNFT] {
        let e = encrypted_outputs(t);
        assert!(e.b && e.c);
    }
    for t in [ZA_MINTAUTH, ZA_BURNAUTH] {
        let e = encrypted_outputs(t);
        assert!(!e.b && !e.c);
    }
}

#[test]
fn authorization_actions_need_no_proof() {
    let zero = [0u64; 4];
    let ins = |v: u64| Instance::from_parts(zero, zero, zero, zero, false, v, 0, 0, 0, zero, zero);
    let zs = vec![
        ZAction::from_parts(ZA_MINTFT, ins(1), String::new()),
        ZAction::from_parts(ZA_MINTAUTH, ins(2), String::new()),
        ZAction::from_parts(ZA_TRANSFERFT, ins(3), String::new()),
        ZAction::from_parts(ZA_BURNAUTH, ins(4), String::new()),
        ZAction::from_parts(ZA_BURNFT, ins(5), String::new()),
    ];
    let proved: Vec<u64> = proved_instances(&zs).iter().map(|i| i.b_d1).collect();
    assert_eq!(proved, vec![1, 3, 5]);
    assert!(proved_instances(&Vec::new()).is_empty());
}
