use zeos_orchard::eosio::{
    char_to_value, name_to_value, string_to_symbol, string_to_symbol_code, symbol_code_to_string,
    symbol_to_string_precision, value_to_name,
};

#[test]
fn test1() {
    assert_eq!(name_to_value(&"eosio".to_string()), 6138663577826885632);
    assert_eq!(name_to_value(&"eosio.msig".to_string()), 6138663587900751872);
    assert_eq!(name_to_value(&"eosio.token".to_string()), 6138663591592764928);
    assert_eq!(string_to_symbol_code(&"ZEOSZEOS".to_string()), 0);
    assert_eq!(string_to_symbol_code(&"eos".to_string()), 0);
    assert_eq!(string_to_symbol_code(&"EOS".to_string()), 5459781);
    assert_eq!(string_to_symbol(&"EOS".to_string(), 4), 1397703940);
    assert_eq!(string_to_symbol(&"ZEOS".to_string(), 4), 357812230660);
    assert_eq!(symbol_code_to_string(5459781), "EOS".to_string());
    assert_eq!(symbol_to_string_precision(357812230660), ("ZEOS".to_string(), 4));
    assert_eq!(value_to_name(6138663577826885632), "eosio".to_string());
    assert_eq!(value_to_name(6138663587900751872), "eosio.msig".to_string());
    assert_eq!(value_to_name(6138663591592764928), "eosio.token".to_string());
}

#[test]
fn account_names_of_the_transaction_example() {
    assert_eq!(10813382581022265600, name_to_value(&"mschoenebeck".to_string()));
    assert_eq!(value_to_name(10813382581022265600), "mschoenebeck".to_string());
}

#[test]
fn thirteenth_character_after_j_is_invalid() {
    assert_eq!(name_to_value(&"aaaaaaaaaaaak".to_string()), 0);
    assert_eq!(name_to_value(&"aaaaaaaaaaaaz".to_string()), 0);
    let v = name_to_value(&"aaaaaaaaaaaaj".to_string());
    assert_ne!(v, 0);
    assert_eq!(v & 0x0F, 15);
    assert_eq!(value_to_name(v), "aaaaaaaaaaaaj".to_string());
}

#[test]
fn empty_and_overlong_names_are_zero() {
    assert_eq!(name_to_value(&"".to_string()), 0);
    assert_eq!(name_to_value(&"aaaaaaaaaaaaaa".to_string()), 0);
    assert_eq!(value_to_name(0), "".to_string());
}

#[test]
fn characters_outside_the_alphabet_count_as_dot() {
    assert_eq!(char_to_value(b'.'), 0);
    assert_eq!(char_to_value(b'1'), 1);
    assert_eq!(char_to_value(b'5'), 5);
    assert_eq!(char_to_value(b'a'), 6);
    assert_eq!(char_to_value(b'z'), 31);
    assert_eq!(char_to_value(b'A'), 0);
    assert_eq!(char_to_value(b'6'), 0);
    assert_eq!(name_to_value(&"a".to_string()), 6u64 << 59);
}

#[test]
fn symbol_codes() {
    assert_eq!(string_to_symbol_code(&"".to_string()), 0);
    assert_eq!(string_to_symbol_code(&"ABCDEFG".to_string()), 0x47464544434241);
    assert_eq!(symbol_code_to_string(0x47464544434241), "ABCDEFG".to_string());
    assert_eq!(string_to_symbol_code(&"EoS".to_string()), 0);
    assert_eq!(symbol_to_string_precision(1397703940), ("EOS".to_string(), 4));
    assert_eq!(symbol_code_to_string(0), "".to_string());
}
