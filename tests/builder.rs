use group::{Group, GroupEncoding};
use pasta_curves::pallas;
use rand::seq::SliceRandom;
use zeos_orchard::action::{ZA_BURNFT, ZA_BURNNFT, ZA_MINTAUTH, ZA_MINTFT, ZA_MINTNFT, ZA_TRANSFERFT};
use zeos_orchard::address::Address;
use zeos_orchard::builder::{
    assemble_transaction, begin_action_data, begin_wrapper, burn_memo, dummy_step_hex, fungible_output_values,
    get_liquidstorage_uri, mint_output, output_memo, plain_transaction, spend_request, select_auth_note, select_fungible_notes, select_nonfungible_note,
    step_action_data, step_actions, text_memo, zaction_range, EOSAction, EOSActionDesc, EOSAuthorization,
    TransactionBuilder, ZActionDesc,
};
use zeos_orchard::eosio::name_to_value;
use zeos_orchard::note::{Note, NoteEx, RandomSeed, NT_AT, NT_FT, NT_NFT};

const DUMMY_STEP: &str = "efbeaddeefbeaddeefbeaddeefbeaddeefbeaddeefbeaddeefbeaddeefbeaddeefbeaddeefbeadde000000000000000000000000000000000000000000000000000000000000000000000000000000000000000000000000000000000000000000000000000000000000000000000000000000000000000000000000000000000000000000000000000000000000000000000000000000000000000000000000000000000000000000000000000000000000000000000000000000000000000000000000000000000000000000000000000000000000000000000000000000000000000000000000000000000000000000000000000000000000";

fn address(seed: u8) -> Address {
    Address::from_parts([seed; 11], pallas::Point::generator().to_bytes())
}

fn note(id: u64, header: u64, d1: u64, d2: u64, sc: u64, nft: u64) -> NoteEx {
    NoteEx {
        id,
        block_number: 0,
        leaf_index: id,
        note: Note::from_parts(header, address(id as u8), d1, d2, sc, nft, [id as u8; 32], RandomSeed([1; 32]), [0; 512]),
    }
}

fn quantities(notes: &[NoteEx]) -> Vec<u64> {
    notes.iter().map(|n| n.note.d1()).collect()
}

#[test]
fn note_selection() {
    let mut rng = rand::rngs::OsRng;
    let mut notes = Vec::new();
    notes.push(note(0, NT_FT, 5, 1, 1, 0));
    notes.push(note(1, NT_FT, 3, 1, 1, 0));
    notes.push(note(2, NT_FT, 2, 1, 1, 0));
    notes.push(note(3, NT_AT, 1337, 0, 111, 1));
    let nc = [11u64, 12, 13, 14];

    let (mut spent_notes, change) = select_fungible_notes(&mut notes, 6, 1, 1).unwrap();
    assert_eq!(spent_notes.len(), 2);
    assert_eq!(change, 2);

    notes.append(&mut spent_notes);

    let mut commitments: Vec<[u64; 4]> =
        notes.iter().map(|n| if n.id == 3 { nc } else { [n.id, 0, 0, 0] }).collect();
    let auth_note = select_auth_note(&mut notes, 111, nc, &mut commitments).unwrap();
    assert_eq!(auth_note.note.d1(), 1337);

    notes.push(auth_note);
    notes.shuffle(&mut rng);

    let nft = select_nonfungible_note(&mut notes, 1337, 0, 111).unwrap();
    assert_eq!(nft.note.d1(), 1337);
}

#[test]
fn greedy_selection() {
    let mut notes = vec![note(0, NT_FT, 5, 7, 9, 0), note(1, NT_FT, 3, 7, 9, 0), note(2, NT_FT, 2, 7, 9, 0)];
    let (sel, change) = select_fungible_notes(&mut notes, 6, 7, 9).unwrap();
    assert_eq!(quantities(&sel), vec![5, 3]);
    assert_eq!(change, 2);
    assert_eq!(quantities(&notes), vec![2]);

    let mut pool = vec![note(0, NT_FT, 5, 7, 9, 0), note(1, NT_FT, 3, 7, 9, 0), note(2, NT_FT, 2, 7, 9, 0)];
    assert!(select_fungible_notes(&mut pool, 11, 7, 9).is_none());
    assert_eq!(quantities(&pool), vec![5, 3, 2]);
    assert_eq!(pool.iter().map(|n| n.id).collect::<Vec<_>>(), vec![0, 1, 2]);
}

#[test]
fn selection_skips_other_tokens_and_picks_largest_first() {
    let mut notes = vec![
        note(0, NT_FT, 1, 7, 9, 0),
        note(1, NT_FT, 100, 8, 9, 0),
        note(2, NT_FT, 4, 7, 9, 0),
        note(3, NT_FT, 50, 7, 10, 0),
        note(4, NT_FT, 6, 7, 9, 0),
        note(5, NT_FT, 70, 7, 9, 1),
    ];
    let (sel, change) = select_fungible_notes(&mut notes, 10, 7, 9).unwrap();
    assert_eq!(quantities(&sel), vec![6, 4]);
    assert_eq!(change, 0);
    assert_eq!(notes.iter().map(|n| n.id).collect::<Vec<_>>(), vec![0, 1, 3, 5]);
    // the notes picked are gone from the pool, so a second request cannot spend them again
    let (again, _) = select_fungible_notes(&mut notes, 1, 7, 9).unwrap();
    assert_eq!(again.iter().map(|n| n.id).collect::<Vec<_>>(), vec![0]);
    assert!(select_fungible_notes(&mut notes, 1, 7, 9).is_none());
}

#[test]
fn zero_amount_takes_one_note_if_any() {
    let mut notes = vec![note(0, NT_FT, 5, 7, 9, 0)];
    let (sel, change) = select_fungible_notes(&mut notes, 0, 7, 9).unwrap();
    assert_eq!(quantities(&sel), vec![5]);
    assert_eq!(change, 5);
    let mut empty: Vec<NoteEx> = Vec::new();
    assert!(select_fungible_notes(&mut empty, 0, 7, 9).is_none());
}

#[test]
fn largest_quantities_do_not_overflow() {
    let mut notes = vec![note(0, NT_FT, u64::MAX, 7, 9, 0), note(1, NT_FT, u64::MAX, 7, 9, 0)];
    let (sel, change) = select_fungible_notes(&mut notes, u64::MAX, 7, 9).unwrap();
    assert_eq!(sel.len(), 1);
    assert_eq!(change, 0);
    let mut both = vec![note(0, NT_FT, u64::MAX - 1, 7, 9, 0), note(1, NT_FT, 1, 7, 9, 0)];
    assert!(select_fungible_notes(&mut both, u64::MAX, 7, 9).is_some());
}

#[test]
fn nft_lookup() {
    let mut notes = vec![note(0, NT_FT, 5, 1, 1, 0), note(1, NT_FT, 3, 1, 1, 0), note(2, NT_AT, 1337, 0, 111, 1)];
    let found = select_nonfungible_note(&mut notes, 1337, 0, 111).unwrap();
    assert_eq!(found.id, 2);
    assert_eq!(found.note.header(), NT_AT);
    assert_eq!(quantities(&notes), vec![5, 3]);
    assert!(select_nonfungible_note(&mut notes, 1337, 0, 111).is_none());
    assert_eq!(quantities(&notes), vec![5, 3]);
}

#[test]
fn auth_note_needs_matching_commitment() {
    let mut notes = vec![note(0, NT_AT, 1, 0, 111, 1), note(1, NT_AT, 2, 0, 111, 1)];
    let mut cms = vec![[1u64, 1, 1, 1], [2u64, 2, 2, 2]];
    assert!(select_auth_note(&mut notes, 111, [3, 3, 3, 3], &mut cms).is_none());
    assert!(select_auth_note(&mut notes, 112, [2, 2, 2, 2], &mut cms).is_none());
    let n = select_auth_note(&mut notes, 111, [2, 2, 2, 2], &mut cms).unwrap();
    assert_eq!(n.id, 1);
    assert_eq!(notes.len(), 1);
    assert_eq!(cms, vec![[1u64, 1, 1, 1]]);
}

#[test]
fn test_liquidstorage_uri() {
    let val = get_liquidstorage_uri(&"hello".to_string(), false);
    assert_eq!(val, "ipfs://zb2rhZfjRh2FHHB2RkHVEvL2vJnCTcu7kwRqgVsf9gpkLgteo");
    let short = get_liquidstorage_uri(&"hello".to_string(), true);
    assert_eq!(short, "zb2rhZfjRh2FHHB2RkHVEvL2vJnCTcu7kwRqgVsf9gpkLgteo");
}

#[test]
fn value_conservation_of_a_transfer() {
    let mut notes = vec![note(0, NT_FT, 5, 7, 9, 0), note(1, NT_FT, 3, 7, 9, 0), note(2, NT_FT, 2, 7, 9, 0)];
    let (sel, change) = select_fungible_notes(&mut notes, 6, 7, 9).unwrap();
    let outs = fungible_output_values(&sel, change);
    assert_eq!(outs.len(), 2);
    assert_eq!((outs[0].b_d1, outs[0].c_d1), (5, 0));
    assert_eq!((outs[1].b_d1, outs[1].c_d1), (1, 2));
    let to_recipient: u64 = outs.iter().map(|o| o.b_d1).sum();
    let all: u64 = outs.iter().map(|o| o.b_d1 + o.c_d1).sum();
    assert_eq!(to_recipient, 6);
    assert_eq!(all, quantities(&sel).iter().sum::<u64>());
}

#[test]
fn memos() {
    let m = text_memo(&"This is a test!".to_string()).unwrap();
    assert_eq!(&m[..15], b"This is a test!");
    assert!(m[15..].iter().all(|b| *b == 0));
    assert!(text_memo(&"x".repeat(512)).is_none());
    assert!(text_memo(&"x".repeat(511)).is_some());
    let b = burn_memo(&"mschoenebeck".to_string()).unwrap();
    assert_eq!(&b[..8], &10813382581022265600u64.to_be_bytes());
    assert!(b[8..].iter().all(|x| *x == 0));
    assert!(burn_memo(&"thirteenchars".to_string()).is_none());
}

#[test]
fn dummy_step_text() {
    assert_eq!(dummy_step_hex(), DUMMY_STEP);
}

#[test]
fn step_payloads() {
    let data = "abcd".to_string();
    assert_eq!(step_action_data(&Vec::new(), &data), data);
    let hexes = vec!["1111".to_string(), "2222".to_string()];
    assert_eq!(step_action_data(&hexes, &data), format!("03{}11112222abcd", DUMMY_STEP));
    let many: Vec<String> = (0..20).map(|_| "ab".to_string()).collect();
    assert!(step_action_data(&many, &String::new()).starts_with(&format!("15{}", DUMMY_STEP)));
}

fn auth(actor: &str) -> Vec<EOSAuthorization> {
    vec![EOSAuthorization { actor: actor.to_string(), permission: "active".to_string() }]
}

fn transfer(memo: &str) -> EOSActionDesc {
    EOSActionDesc {
        action: EOSAction {
            account: "eosio.token".to_string(),
            name: "transfer".to_string(),
            authorization: auth("newstock1dex"),
            data: format!("{{\"from\":\"newstock1dex\", \"to\":\"thezeostoken\", \"quantity\":\"1.0000 EOS\", \"memo\":\"{}\"}}", memo),
        },
        zaction_descs: Vec::new(),
    }
}

fn exec(za_type: u64, to: &str, d1: &str, d2: &str) -> EOSActionDesc {
    EOSActionDesc {
        action: EOSAction {
            account: "thezeostoken".to_string(),
            name: "exec".to_string(),
            authorization: auth("thezeostoken"),
            data: "".to_string(),
        },
        zaction_descs: vec![ZActionDesc {
            za_type,
            to: to.to_string(),
            d1: d1.to_string(),
            d2: d2.to_string(),
            sc: "thezeostoken".to_string(),
            memo: "This is a test!".to_string(),
        }],
    }
}

#[test]
fn transaction_interleaving() {
    let descs = vec![
        transfer("unit test only"),
        transfer("kylin test"),
        exec(ZA_MINTFT, &address(1).to_bech32m(), "10000", "1397703940"),
        transfer("unit test only"),
        exec(ZA_BURNFT, "mschoenebeck", "9", "1"),
        transfer("unit test only"),
        transfer("unit test only"),
    ];
    let (begin, end) = zaction_range(&descs).unwrap();
    assert_eq!((begin, end), (2, 4));
    let hexes = vec![vec!["aa".to_string()], Vec::new(), vec!["bb".to_string(), "cc".to_string()]];
    let steps = step_actions(&descs, begin, end, &hexes);
    assert_eq!(steps.len(), 3);
    assert_eq!(steps[0].data, format!("02{}aa", DUMMY_STEP));
    assert_eq!(steps[1].data, descs[3].action.data);
    assert_eq!(steps[2].data, format!("03{}bbcc", DUMMY_STEP));
    let data = begin_action_data(&"zproof".to_string(), &"[]".to_string(), &"[]".to_string());
    assert_eq!(data, "{\"proof\":\"zproof\",\"notes\":[],\"tx\":[]}");
    let parsed: serde_json::Value = serde_json::from_str(&data).unwrap();
    let keys: Vec<&String> = parsed.as_object().unwrap().keys().collect();
    assert_eq!(keys.len(), 3);
    assert!(parsed.get("proof").is_some() && parsed.get("notes").is_some() && parsed.get("tx").is_some());
    let eos_auth = auth("newstock1dex");
    let begin_action = begin_wrapper(&eos_auth, &data);
    let tx = assemble_transaction(&descs, begin, end, begin_action, &steps, &eos_auth);
    let names: Vec<&str> = tx.iter().map(|a| a.name.as_str()).collect();
    assert_eq!(names, vec!["transfer", "transfer", "begin", "step", "step", "step", "transfer", "transfer"]);
    assert_eq!(tx[1].data, descs[1].action.data);
    assert_eq!(tx[2].data, data);
    assert_eq!(tx[3].account, "thezeostoken");
    assert_eq!(tx[3].data, steps[0].data);
    assert_eq!(tx[5].data, steps[2].data);
    assert_eq!(tx[6].data, descs[5].action.data);
    assert_eq!(tx[7].authorization[0].actor, "newstock1dex");
}

#[test]
fn no_shielded_actions_leaves_the_transaction_alone() {
    let descs = vec![transfer("a"), transfer("b")];
    assert!(zaction_range(&descs).is_none());
    let tx = plain_transaction(&descs);
    assert_eq!(tx.len(), 2);
    assert_eq!(tx[1].data, descs[1].action.data);
}

#[test]
fn builder_keeps_leaf_count() {
    assert_eq!(TransactionBuilder::new(77).leaf_count, 77);
    assert_eq!(name_to_value(&"thezeostoken".to_string()) != 0, true);
}

fn desc(za_type: u64, to: &str, d1: &str, d2: &str, sc: &str, memo: &str) -> ZActionDesc {
    ZActionDesc {
        za_type,
        to: to.to_string(),
        d1: d1.to_string(),
        d2: d2.to_string(),
        sc: sc.to_string(),
        memo: memo.to_string(),
    }
}

#[test]
fn mint_descriptors() {
    let to = address(4).to_bech32m();
    let ft = mint_output(&desc(ZA_MINTFT, &to, "10000", "1397703940", "eosio.token", "This is a test!")).unwrap();
    assert_eq!(ft.header, NT_FT);
    assert_eq!(ft.d1, 10000);
    assert_eq!(ft.d2, 1397703940);
    assert_eq!(ft.sc, 6138663591592764928);
    assert_eq!(ft.nft, 0);
    assert_eq!(ft.recipient.to_raw_address_bytes(), address(4).to_raw_address_bytes());
    assert_eq!(&ft.memo[..15], b"This is a test!");
    let nft = mint_output(&desc(ZA_MINTNFT, &to, "1337", "0", "atomicassets", "")).unwrap();
    assert_eq!(nft.header, NT_NFT);
    assert_eq!(nft.nft, 1);
    let auth = mint_output(&desc(ZA_MINTAUTH, &to, "+7", "0", "thezeostoken", "")).unwrap();
    assert_eq!(auth.header, NT_AT);
    assert_eq!(auth.d1, 7);
    assert!(mint_output(&desc(ZA_TRANSFERFT, &to, "1", "1", "eosio.token", "")).is_none());
    assert!(mint_output(&desc(ZA_MINTFT, "mschoenebeck", "1", "1", "eosio.token", "")).is_none());
    assert!(mint_output(&desc(ZA_MINTFT, &to, "1.5", "1", "eosio.token", "")).is_none());
    assert!(mint_output(&desc(ZA_MINTFT, &to, "18446744073709551616", "1", "eosio.token", "")).is_none());
    assert!(mint_output(&desc(ZA_MINTFT, &to, "1", "1", "eosio.token", &"m".repeat(512))).is_none());
}

#[test]
fn spend_descriptors() {
    let r = spend_request(&desc(ZA_BURNFT, "mschoenebeck", "9", "1", "thezeostoken", "")).unwrap();
    assert_eq!((r.d1, r.d2), (9, 1));
    assert_eq!(r.sc, name_to_value(&"thezeostoken".to_string()));
    assert_eq!(spend_request(&desc(ZA_BURNFT, "x", "18446744073709551615", "0", "a", "")).unwrap().d1, u64::MAX);
    assert!(spend_request(&desc(ZA_BURNFT, "x", "", "1", "a", "")).is_none());
    assert!(spend_request(&desc(ZA_BURNFT, "x", "1", " 1", "a", "")).is_none());
}

#[test]
fn output_memos_by_type() {
    let t = output_memo(&desc(ZA_TRANSFERFT, "za1...", "1", "1", "a", "hi")).unwrap();
    assert_eq!(&t[..2], b"hi");
    let b = output_memo(&desc(ZA_BURNNFT, "mschoenebeck", "1", "1", "a", "ignored")).unwrap();
    assert_eq!(&b[..8], &10813382581022265600u64.to_be_bytes());
    assert!(output_memo(&desc(ZA_MINTFT, "x", "1", "1", "a", "")).is_none());
}
